use vstd::prelude::*;
use crate::colour::Rgb;
use crate::cycler::{Cycler, advance, current, cycle_wf};
use crate::plain::{Scan, lemma_coloured_plain, lemma_run_concat, lemma_run_plain, lemma_run_prefix, run, start, strip_escapes};
use crate::palette::{UnknownFlag, flag2colours, flag_colours};
use crate::render::{colour, coloured};
use crate::text::{is_ws, lemma_trim_bounds, trim, trim_bounds, trim_end, trim_start};

verus! {

/// Whether a line is coloured: it has content, or it is blank and a
/// background is painted on an interactive terminal.
pub open spec fn colourises(line: Seq<char>, bg: bool, tty: bool) -> bool {
    trim(line).len() > 0 || (bg && tty)
}

/// Where the coloured part of a line starts: the first occurrence of the
/// first character of its content, or 0 for a blank line.
pub open spec fn content_start(line: Seq<char>) -> int {
    if trim(line).len() > 0 { trim_start(line) } else { 0 }
}

/// The line with its trimmed content coloured with `c`, the line erased
/// first only where a background is painted, and the text around the
/// content kept as it was.
pub open spec fn coloured_line(line: Seq<char>, bg: bool, tc: bool, light: bool, c: Rgb) -> Seq<char> {
    let p = content_start(line);
    line.subrange(0, p) + coloured(bg, tc, light, c, trim(line), bg) + line.subrange(
        p + trim(line).len(),
        line.len() as int,
    )
}

/// The first position of `c` in `s`, if any, as `str::find` with a character.
pub fn find_char(s: &str, c: char) -> (r: Option<usize>)
    ensures
        match r {
            Some(i) => i < s@.len() && s@[i as int] == c && forall|k: int| 0 <= k < i ==> s@[k] != c,
            None => forall|k: int| 0 <= k < s@.len() ==> s@[k] != c,
        },
{
    let n = s.unicode_len();
    let mut i: usize = 0;
    while i < n
        invariant
            n == s@.len(),
            i <= n,
            forall|k: int| 0 <= k < i ==> s@[k] != c,
        decreases n - i,
    {
        if s.get_char(i) == c {
            return Some(i);
        }
        i = i + 1;
    }
    None
}

/// The content of a line, without white space at either end, is found where
/// its first character first occurs; the text before it, the content and
/// the text after it make up the line again.
pub proof fn lemma_line_parts(line: Seq<char>)
    requires
        trim(line).len() > 0,
    ensures
        content_start(line) == trim_start(line),
        forall|k: int| 0 <= k < content_start(line) ==> line[k] != trim(line)[0],
        line[content_start(line)] == trim(line)[0],
        line.subrange(0, content_start(line)) + trim(line) + line.subrange(
            content_start(line) + trim(line).len(),
            line.len() as int,
        ) == line,
{
    lemma_trim_bounds(line);
    let p = trim_start(line);
    assert forall|k: int| 0 <= k < p implies line[k] != trim(line)[0] by {
        assert(is_ws(line[k]));
    }
    assert(line.subrange(0, p) + trim(line) + line.subrange(p + trim(line).len(), line.len() as int) =~= line);
}

/// A line without escape characters of its own comes back whole from its
/// coloured form once the control sequences are removed: the text before
/// the content, the content, and the text after it, in order.
pub proof fn lemma_round_trip(line: Seq<char>, bg: bool, tc: bool, light: bool, c: Rgb)
    requires
        forall|i: int| 0 <= i < line.len() ==> line[i] != '\x1b',
    ensures
        strip_escapes(coloured_line(line, bg, tc, light, c)) == line,
{
    lemma_trim_bounds(line);
    let t = trim(line);
    let p = content_start(line);
    let pre = line.subrange(0, p);
    let post = line.subrange(p + t.len(), line.len() as int);
    let shown = coloured(bg, tc, light, c, t, bg);
    if t.len() > 0 {
        lemma_line_parts(line);
    } else {
        assert(post =~= line);
        assert(pre =~= Seq::<char>::empty());
    }
    assert forall|i: int| 0 <= i < t.len() implies t[i] != '\x1b' by {
        assert(t[i] == line[trim_start(line) + i]);
    }
    assert forall|i: int| 0 <= i < pre.len() implies pre[i] != '\x1b' by {
        assert(pre[i] == line[i]);
    }
    assert forall|i: int| 0 <= i < post.len() implies post[i] != '\x1b' by {
        assert(post[i] == line[p + t.len() + i]);
    }
    lemma_run_plain(pre);
    lemma_run_plain(post);
    lemma_coloured_plain(bg, tc, light, c, t, bg);
    lemma_run_concat(start(), pre, shown);
    lemma_run_prefix(pre, Scan::Text, shown);
    lemma_run_concat(start(), pre + shown, post);
    lemma_run_prefix(pre + t, Scan::Text, post);
    assert(pre + t + post =~= line);
}

/// Colours one line, taking a colour from `cycler` where the line is
/// coloured. Blank lines pass through unchanged unless a background is
/// painted on an interactive terminal.
pub fn colour_line(line: &str, bg: bool, tc: bool, light: bool, tty: bool, cycler: &mut Cycler) -> (r: String)
    requires
        cycle_wf(old(cycler)@),
    ensures
        cycle_wf(final(cycler)@),
        colourises(line@, bg, tty) ==> final(cycler)@ == advance(old(cycler)@) && r@ == coloured_line(
            line@,
            bg,
            tc,
            light,
            current(old(cycler)@),
        ),
        !colourises(line@, bg, tty) ==> final(cycler)@ == old(cycler)@ && r@ == line@,
{
    let (s, e) = trim_bounds(line);
    proof {
        lemma_trim_bounds(line@);
    }
    if s == e && !(bg && tty) {
        return String::from_str(line);
    }
    let c = cycler.next();
    let content = line.substring_char(s, e);
    let shown = colour(bg, tc, light, &c, content, bg);
    let i: usize = if s < e {
        match find_char(line, line.get_char(s)) {
            Some(i) => i,
            None => 0,
        }
    } else {
        0
    };
    proof {
        if s < e {
            lemma_line_parts(line@);
        }
    }
    assert(i as int == content_start(line@));
    let n = line.unicode_len();
    let mut out = String::from_str(line.substring_char(0, i));
    out.append(shown.as_str());
    out.append(line.substring_char(i + (e - s), n));
    out
}

/// A box line: `l`, then `w` horizontal rules, then `r`.
pub open spec fn box_row(l: char, w: nat, r: char) -> Seq<char> {
    seq![l] + Seq::new(w, |i: int| '\u{2500}') + seq![r]
}

/// The lines that show a flag: its name, once in each of its colours,
/// inside a box as wide as the name is long.
pub open spec fn demo_lines(name: Seq<char>, bg: bool, tc: bool, light: bool, cs: Seq<Rgb>) -> Seq<Seq<char>> {
    seq![box_row('\u{250c}', name.len(), '\u{2510}')]
        + Seq::new(cs.len(), |i: int| seq!['\u{2502}'] + coloured(bg, tc, light, cs[i], name, false) + seq!['\u{2502}'])
        + seq![box_row('\u{2514}', name.len(), '\u{2518}')]
}

fn rule_row(l: &str, w: usize, r: &str) -> (out: String)
    requires
        l@.len() == 1,
        r@.len() == 1,
    ensures
        out@ == box_row(l@[0], w as nat, r@[0]),
{
    proof {
        reveal_strlit("\u{2500}");
    }
    let mut out = String::from_str(l);
    let mut i: usize = 0;
    while i < w
        invariant
            i <= w,
            l@.len() == 1,
            out@ == seq![l@[0]] + Seq::new(i as nat, |k: int| '\u{2500}'),
        decreases w - i,
    {
        proof {
            reveal_strlit("\u{2500}");
        }
        out.append("\u{2500}");
        i = i + 1;
        assert(out@ =~= seq![l@[0]] + Seq::new(i as nat, |k: int| '\u{2500}'));
    }
    out.append(r);
    assert(out@ =~= box_row(l@[0], w as nat, r@[0]));
    out
}

/// The boxed swatch of one flag, one line per colour.
pub fn demo_box(flag: &str, bg: bool, tc: bool, light: bool) -> (r: Result<Vec<String>, UnknownFlag>)
    ensures
        match flag_colours(flag@) {
            Some(cs) => r is Ok && crate::text::views(r->Ok_0@) == demo_lines(flag@, bg, tc, light, cs),
            None => r is Err && r->Err_0.flag@ == flag@,
        },
{
    let cs = match flag2colours(flag) {
        Ok(cs) => cs,
        Err(e) => {
            return Err(e);
        },
    };
    proof {
        reveal_strlit("\u{250c}");
        reveal_strlit("\u{2510}");
        reveal_strlit("\u{2514}");
        reveal_strlit("\u{2518}");
        reveal_strlit("\u{2502}");
    }
    let w = flag.unicode_len();
    let mut out: Vec<String> = Vec::new();
    out.push(rule_row("\u{250c}", w, "\u{2510}"));
    let mut i: usize = 0;
    while i < cs.len()
        invariant
            i <= cs@.len(),
            w == flag@.len(),
            crate::text::views(out@) == seq![box_row('\u{250c}', w as nat, '\u{2510}')] + Seq::new(
                i as nat,
                |k: int| seq!['\u{2502}'] + coloured(bg, tc, light, cs@[k], flag@, false) + seq!['\u{2502}'],
            ),
        decreases cs.len() - i,
    {
        proof {
            reveal_strlit("\u{2502}");
        }
        let mut row = String::from_str("\u{2502}");
        let shown = colour(bg, tc, light, &cs[i], flag, false);
        row.append(shown.as_str());
        row.append("\u{2502}");
        assert(row@ =~= seq!['\u{2502}'] + coloured(bg, tc, light, cs@[i as int], flag@, false) + seq!['\u{2502}']);
        let ghost before = out@;
        out.push(row);
        assert(crate::text::views(out@) =~= crate::text::views(before).push(
            seq!['\u{2502}'] + coloured(bg, tc, light, cs@[i as int], flag@, false) + seq!['\u{2502}'],
        ));
        i = i + 1;
        assert(crate::text::views(out@) =~= seq![box_row('\u{250c}', w as nat, '\u{2510}')] + Seq::new(
            i as nat,
            |k: int| seq!['\u{2502}'] + coloured(bg, tc, light, cs@[k], flag@, false) + seq!['\u{2502}'],
        ));
    }
    out.push(rule_row("\u{2514}", w, "\u{2518}"));
    assert(crate::text::views(out@) =~= demo_lines(flag@, bg, tc, light, cs@));
    Ok(out)
}

} // verus!

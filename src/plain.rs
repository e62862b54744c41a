use vstd::prelude::*;
use crate::colour::Rgb;
use crate::render::{coloured, colour_params, csi, erase_line_seq, overlay, reset_seq, set_seq, wrapped};
use crate::text::{dec, digit_char};

verus! {

/// Where a scan for escape sequences stands: in plain text, just after an
/// escape character, or inside a control sequence.
pub enum Scan {
    Text,
    Esc,
    Csi,
}

/// A character that ends a control sequence.
pub open spec fn is_final_byte(c: char) -> bool {
    '@' <= c && c <= '~'
}

/// One character of the scan: plain text is kept, control sequences
/// (escape, `[`, parameters, final character) are dropped.
pub open spec fn step(p: (Seq<char>, Scan), c: char) -> (Seq<char>, Scan) {
    match p.1 {
        Scan::Text => if c == '\x1b' { (p.0, Scan::Esc) } else { (p.0.push(c), Scan::Text) },
        Scan::Esc => if c == '[' {
            (p.0, Scan::Csi)
        } else if c == '\x1b' {
            (p.0.push('\x1b'), Scan::Esc)
        } else {
            (p.0.push('\x1b').push(c), Scan::Text)
        },
        Scan::Csi => if is_final_byte(c) { (p.0, Scan::Text) } else { (p.0, Scan::Csi) },
    }
}

/// The scan of `s` from the state `p`.
pub open spec fn run(p: (Seq<char>, Scan), s: Seq<char>) -> (Seq<char>, Scan)
    decreases s.len(),
{
    if s.len() == 0 { p } else { step(run(p, s.drop_last()), s.last()) }
}

/// The start of a scan.
pub open spec fn start() -> (Seq<char>, Scan) {
    (Seq::empty(), Scan::Text)
}

/// `s` with its ANSI control sequences removed.
pub open spec fn strip_escapes(s: Seq<char>) -> Seq<char> {
    let p = run(start(), s);
    if p.1 is Esc { p.0.push('\x1b') } else { p.0 }
}

/// Scanning `a + b` is scanning `a`, then `b`.
pub proof fn lemma_run_concat(p: (Seq<char>, Scan), a: Seq<char>, b: Seq<char>)
    ensures
        run(p, a + b) == run(run(p, a), b),
    decreases b.len(),
{
    if b.len() == 0 {
        assert(a + b =~= a);
    } else {
        assert((a + b).drop_last() =~= a + b.drop_last());
        assert((a + b).last() == b.last());
        lemma_run_concat(p, a, b.drop_last());
    }
}

/// What a scan has kept so far only stands in front of what it keeps next.
pub proof fn lemma_run_prefix(o: Seq<char>, st: Scan, s: Seq<char>)
    ensures
        run((o, st), s).0 == o + run((Seq::empty(), st), s).0,
        run((o, st), s).1 == run((Seq::empty(), st), s).1,
    decreases s.len(),
{
    if s.len() == 0 {
        assert(o + Seq::<char>::empty() =~= o);
    } else {
        lemma_run_prefix(o, st, s.drop_last());
        let q = run((Seq::empty(), st), s.drop_last());
        let c = s.last();
        assert((o + q.0).push(c) =~= o + q.0.push(c));
        assert((o + q.0).push('\x1b') =~= o + q.0.push('\x1b'));
        assert((o + q.0).push('\x1b').push(c) =~= o + q.0.push('\x1b').push(c));
    }
}

/// Text without escape characters is kept whole.
pub proof fn lemma_run_plain(s: Seq<char>)
    requires
        forall|i: int| 0 <= i < s.len() ==> s[i] != '\x1b',
    ensures
        run(start(), s) == (s, Scan::Text),
    decreases s.len(),
{
    if s.len() == 0 {
    } else {
        lemma_run_plain(s.drop_last());
        assert(s.drop_last().push(s.last()) =~= s);
    }
}

/// Inside a control sequence, characters that do not end it are dropped.
proof fn lemma_run_params(o: Seq<char>, s: Seq<char>)
    requires
        forall|i: int| 0 <= i < s.len() ==> !is_final_byte(#[trigger] s[i]),
    ensures
        run((o, Scan::Csi), s) == (o, Scan::Csi),
    decreases s.len(),
{
    if s.len() > 0 {
        lemma_run_params(o, s.drop_last());
    }
}

/// A whole control sequence leaves nothing behind.
proof fn lemma_run_sequence(params: Seq<char>, f: char)
    requires
        forall|i: int| 0 <= i < params.len() ==> !is_final_byte(#[trigger] params[i]),
        is_final_byte(f),
    ensures
        run(start(), csi() + params + seq![f]) == start(),
{
    lemma_run_concat(start(), csi() + params, seq![f]);
    lemma_run_concat(start(), csi(), params);
    let e = seq!['\x1b'];
    assert(e.drop_last() =~= Seq::<char>::empty());
    assert(e.last() == '\x1b');
    assert(run(start(), Seq::<char>::empty()) == start());
    assert(run(start(), e) == (Seq::<char>::empty(), Scan::Esc));
    assert(csi().drop_last() =~= e);
    assert(csi().last() == '[');
    assert(run(start(), csi()) == (Seq::<char>::empty(), Scan::Csi));
    lemma_run_params(Seq::empty(), params);
    let fs = seq![f];
    assert(fs.drop_last() =~= Seq::<char>::empty());
    assert(fs.last() == f);
    assert(run((Seq::<char>::empty(), Scan::Csi), fs.drop_last()) == (Seq::<char>::empty(), Scan::Csi));
    assert(run((Seq::<char>::empty(), Scan::Csi), fs) == start());
}

proof fn lemma_dec_digits(n: nat)
    ensures
        forall|i: int| 0 <= i < dec(n).len() ==> '0' <= #[trigger] dec(n)[i] && dec(n)[i] <= '9',
    decreases n,
{
    let d = if n < 10 { n } else { n % 10 };
    assert('0' <= digit_char(d as int) && digit_char(d as int) <= '9');
    if n >= 10 {
        lemma_dec_digits(n / 10);
        let r = dec(n / 10);
        assert forall|i: int| 0 <= i < dec(n).len() implies '0' <= #[trigger] dec(n)[i] && dec(n)[i] <= '9' by {
            if i < r.len() {
                assert(dec(n)[i] == r[i]);
            }
        }
    }
}

proof fn lemma_params_not_final(tc: bool, c: Rgb)
    ensures
        forall|i: int| 0 <= i < colour_params(tc, c).len() ==> !is_final_byte(#[trigger] colour_params(tc, c)[i]),
{
    lemma_dec_digits(c.0 as nat);
    lemma_dec_digits(c.1 as nat);
    lemma_dec_digits(c.2 as nat);
    lemma_dec_digits(crate::colour::indexed(c) as nat);
    let p = colour_params(tc, c);
    assert forall|i: int| 0 <= i < p.len() implies !is_final_byte(#[trigger] p[i]) by {
        if tc {
            let d0 = dec(c.0 as nat);
            let d1 = dec(c.1 as nat);
            let d2 = dec(c.2 as nat);
            let a = seq!['2', ';'] + d0 + seq![';'] + d1 + seq![';'];
            if i < a.len() {
                let b = seq!['2', ';'] + d0 + seq![';'] + d1;
                if i < b.len() {
                    let e = seq!['2', ';'] + d0 + seq![';'];
                    if i < e.len() {
                        if i >= 2 && i < 2 + d0.len() {
                            assert(p[i] == d0[i - 2]);
                        }
                    } else {
                        assert(p[i] == d1[i - e.len()]);
                    }
                }
            } else {
                assert(p[i] == d2[i - a.len()]);
            }
        } else {
            if i >= 2 {
                assert(p[i] == dec(crate::colour::indexed(c) as nat)[i - 2]);
            }
        }
    }
}

/// The sequence that sets a colour leaves nothing behind.
pub proof fn lemma_set_seq(bg: bool, tc: bool, c: Rgb)
    ensures
        run(start(), set_seq(bg, tc, c)) == start(),
{
    lemma_params_not_final(tc, c);
    let g = if bg { seq!['4', '8'] } else { seq!['3', '8'] };
    let params = g + seq![';'] + colour_params(tc, c);
    assert forall|i: int| 0 <= i < params.len() implies !is_final_byte(#[trigger] params[i]) by {
        if i >= 3 {
            assert(params[i] == colour_params(tc, c)[i - 3]);
        }
    }
    assert(set_seq(bg, tc, c) =~= csi() + params + seq!['m']);
    lemma_run_sequence(params, 'm');
}

/// The sequences that reset a colour and erase the line leave nothing behind.
pub proof fn lemma_reset_and_erase(bg: bool)
    ensures
        run(start(), reset_seq(bg)) == start(),
        run(start(), erase_line_seq()) == start(),
{
    let g = if bg { seq!['4', '9', ';'] } else { seq!['3', '9', ';'] };
    assert(reset_seq(bg) =~= csi() + g + seq!['m']);
    lemma_run_sequence(g, 'm');
    assert(erase_line_seq() =~= csi() + seq!['2'] + seq!['K']);
    lemma_run_sequence(seq!['2'], 'K');
}

/// Wrapping text in colour sequences does not change what the scan keeps.
pub proof fn lemma_wrapped_plain(bg: bool, tc: bool, c: Rgb, s: Seq<char>, clear: bool, x: Seq<char>)
    requires
        run(start(), s) == (x, Scan::Text),
    ensures
        run(start(), wrapped(bg, tc, c, s, clear)) == (x, Scan::Text),
{
    let set = set_seq(bg, tc, c);
    let er = if bg && clear { erase_line_seq() } else { Seq::empty() };
    lemma_set_seq(bg, tc, c);
    lemma_reset_and_erase(bg);
    lemma_run_concat(start(), set, er);
    lemma_run_concat(start(), set + er, s);
    lemma_run_concat(start(), set + er + s, reset_seq(bg));
    lemma_run_prefix(x, Scan::Text, reset_seq(bg));
    assert(x + Seq::<char>::empty() =~= x);
}

/// Coloured text without escape characters comes back whole once its
/// control sequences are removed.
pub proof fn lemma_coloured_plain(bg: bool, tc: bool, light: bool, c: Rgb, s: Seq<char>, clear: bool)
    requires
        forall|i: int| 0 <= i < s.len() ==> s[i] != '\x1b',
    ensures
        run(start(), coloured(bg, tc, light, c, s, clear)) == (s, Scan::Text),
{
    lemma_run_plain(s);
    match overlay(bg, light, c) {
        Some(o) => {
            lemma_wrapped_plain(!bg, tc, o, s, clear, s);
            lemma_wrapped_plain(bg, tc, c, wrapped(!bg, tc, o, s, clear), clear, s);
        },
        None => {
            lemma_wrapped_plain(bg, tc, c, s, clear, s);
        },
    }
}

} // verus!

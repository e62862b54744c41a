use vstd::prelude::*;

verus! {

/// The decimal digit character for `d`.
pub open spec fn digit_char(d: int) -> char {
    if d == 0 { '0' }
    else if d == 1 { '1' }
    else if d == 2 { '2' }
    else if d == 3 { '3' }
    else if d == 4 { '4' }
    else if d == 5 { '5' }
    else if d == 6 { '6' }
    else if d == 7 { '7' }
    else if d == 8 { '8' }
    else { '9' }
}

/// Decimal notation of `n`, without leading zeros.
pub open spec fn dec(n: nat) -> Seq<char>
    decreases n,
{
    if n < 10 {
        seq![digit_char(n as int)]
    } else {
        dec(n / 10).push(digit_char((n % 10) as int))
    }
}

fn digit_str(d: u8) -> (r: &'static str)
    requires
        d < 10,
    ensures
        r@ == seq![digit_char(d as int)],
{
    proof {
        reveal_strlit("0");
        reveal_strlit("1");
        reveal_strlit("2");
        reveal_strlit("3");
        reveal_strlit("4");
        reveal_strlit("5");
        reveal_strlit("6");
        reveal_strlit("7");
        reveal_strlit("8");
        reveal_strlit("9");
    }
    let r = if d == 0 { "0" }
        else if d == 1 { "1" }
        else if d == 2 { "2" }
        else if d == 3 { "3" }
        else if d == 4 { "4" }
        else if d == 5 { "5" }
        else if d == 6 { "6" }
        else if d == 7 { "7" }
        else if d == 8 { "8" }
        else { "9" };
    assert(r@ =~= seq![digit_char(d as int)]);
    r
}

/// Appends the decimal notation of `n` to `out`.
pub fn push_dec(out: &mut String, n: u8)
    ensures
        final(out)@ == old(out)@ + dec(n as nat),
{
    proof {
        reveal_with_fuel(dec, 3);
    }
    if n >= 100 {
        out.append(digit_str(n / 100));
    }
    if n >= 10 {
        out.append(digit_str(n / 10 % 10));
    }
    out.append(digit_str(n % 10));
    proof {
        let n = n as nat;
        if n >= 100 {
            assert(n / 10 / 10 == n / 100);
            assert(dec(n / 10) == seq![digit_char((n / 100) as int)].push(
                digit_char((n / 10 % 10) as int),
            ));
        }
        assert(final(out)@ =~= old(out)@ + dec(n));
    }
}

/// White space as `char::is_whitespace` defines it (the Unicode White_Space property).
pub open spec fn is_ws(c: char) -> bool {
    ('\t' <= c && c <= '\r') || c == ' ' || c == '\u{85}' || c == '\u{a0}' || c == '\u{1680}'
        || ('\u{2000}' <= c && c <= '\u{200a}') || c == '\u{2028}' || c == '\u{2029}'
        || c == '\u{202f}' || c == '\u{205f}' || c == '\u{3000}'
}

/// Whether `c` is white space.
pub fn is_whitespace(c: char) -> (r: bool)
    ensures
        r == is_ws(c),
{
    ('\t' <= c && c <= '\r') || c == ' ' || c == '\u{85}' || c == '\u{a0}' || c == '\u{1680}'
        || ('\u{2000}' <= c && c <= '\u{200a}') || c == '\u{2028}' || c == '\u{2029}'
        || c == '\u{202f}' || c == '\u{205f}' || c == '\u{3000}'
}

/// The first position at or after `i` that does not hold white space (or the end).
pub open spec fn skip_ws(s: Seq<char>, i: int) -> int
    decreases s.len() - i,
{
    if 0 <= i < s.len() && is_ws(s[i]) {
        skip_ws(s, i + 1)
    } else {
        i
    }
}

/// Going back from `j`, but not below `lo`, the end of the last character that is not white space.
pub open spec fn back_ws(s: Seq<char>, lo: int, j: int) -> int
    decreases j - lo,
{
    if lo < j && j <= s.len() && is_ws(s[j - 1]) {
        back_ws(s, lo, j - 1)
    } else {
        j
    }
}

/// Where the trimmed content of `s` starts.
pub open spec fn trim_start(s: Seq<char>) -> int {
    skip_ws(s, 0)
}

/// Where the trimmed content of `s` ends.
pub open spec fn trim_end(s: Seq<char>) -> int {
    back_ws(s, trim_start(s), s.len() as int)
}

/// `s` with leading and trailing white space removed, as `str::trim` does.
pub open spec fn trim(s: Seq<char>) -> Seq<char> {
    s.subrange(trim_start(s), trim_end(s))
}

pub proof fn lemma_skip_ws(s: Seq<char>, i: int)
    requires
        0 <= i <= s.len(),
    ensures
        i <= skip_ws(s, i) <= s.len(),
        forall|k: int| i <= k < skip_ws(s, i) ==> is_ws(#[trigger] s[k]),
        skip_ws(s, i) < s.len() ==> !is_ws(s[skip_ws(s, i)]),
    decreases s.len() - i,
{
    if i < s.len() && is_ws(s[i]) {
        lemma_skip_ws(s, i + 1);
    }
}

pub proof fn lemma_back_ws(s: Seq<char>, lo: int, j: int)
    requires
        0 <= lo <= j <= s.len(),
    ensures
        lo <= back_ws(s, lo, j) <= j,
        forall|k: int| back_ws(s, lo, j) <= k < j ==> is_ws(#[trigger] s[k]),
        back_ws(s, lo, j) > lo ==> !is_ws(s[back_ws(s, lo, j) - 1]),
    decreases j - lo,
{
    if lo < j && is_ws(s[j - 1]) {
        lemma_back_ws(s, lo, j - 1);
    }
}

/// Bounds of the trimmed content, and what surrounds it.
pub proof fn lemma_trim_bounds(s: Seq<char>)
    ensures
        0 <= trim_start(s) <= trim_end(s) <= s.len(),
        forall|k: int| 0 <= k < trim_start(s) ==> is_ws(#[trigger] s[k]),
        forall|k: int| trim_end(s) <= k < s.len() ==> is_ws(#[trigger] s[k]),
        trim(s).len() > 0 ==> !is_ws(s[trim_start(s)]) && !is_ws(s[trim_end(s) - 1]),
        trim(s).len() == 0 ==> trim_start(s) == s.len(),
{
    lemma_skip_ws(s, 0);
    lemma_back_ws(s, trim_start(s), s.len() as int);
}

/// Start and end of the trimmed content of `s`, in characters.
pub fn trim_bounds(s: &str) -> (r: (usize, usize))
    ensures
        r.0 as int == trim_start(s@),
        r.1 as int == trim_end(s@),
{
    let n = s.unicode_len();
    let mut i: usize = 0;
    while i < n && is_whitespace(s.get_char(i))
        invariant
            0 <= i <= n,
            n == s@.len(),
            skip_ws(s@, i as int) == skip_ws(s@, 0),
        decreases n - i,
    {
        i = i + 1;
    }
    let mut j: usize = n;
    while i < j && is_whitespace(s.get_char(j - 1))
        invariant
            i <= j <= n,
            n == s@.len(),
            i as int == trim_start(s@),
            back_ws(s@, i as int, j as int) == trim_end(s@),
        decreases j,
    {
        j = j - 1;
    }
    (i, j)
}

/// Whether two strings hold the same characters.
pub fn str_eq(a: &str, b: &str) -> (r: bool)
    ensures
        r == (a@ == b@),
{
    let n = a.unicode_len();
    if n != b.unicode_len() {
        return false;
    }
    let mut i: usize = 0;
    while i < n
        invariant
            n == a@.len() == b@.len(),
            i <= n,
            forall|k: int| 0 <= k < i ==> a@[k] == b@[k],
        decreases n - i,
    {
        if a.get_char(i) != b.get_char(i) {
            return false;
        }
        i = i + 1;
    }
    assert(a@ =~= b@);
    true
}

/// `needle` occurs in `hay` as a run of consecutive characters.
pub open spec fn occurs_in(needle: Seq<char>, hay: Seq<char>) -> bool {
    exists|i: int| 0 <= i && i + needle.len() <= hay.len() && #[trigger] hay.subrange(i, i + needle.len()) == needle
}

/// Whether `needle` occurs in `hay`, as `str::contains` with a string pattern.
pub fn contains(hay: &str, needle: &str) -> (r: bool)
    ensures
        r == occurs_in(needle@, hay@),
{
    let n = hay.unicode_len();
    let m = needle.unicode_len();
    if m > n {
        return false;
    }
    if m == 0 {
        assert(hay@.subrange(0, 0 + needle@.len() as int) =~= needle@);
        return true;
    }
    let mut i: usize = 0;
    while i < n - m + 1
        invariant
            n == hay@.len(),
            m == needle@.len(),
            1 <= m <= n,
            i <= n - m + 1,
            forall|k: int| 0 <= k < i ==> #[trigger] hay@.subrange(k, k + m) != needle@,
        decreases n - m + 1 - i,
    {
        if str_eq(hay.substring_char(i, i + m), needle) {
            return true;
        }
        i = i + 1;
    }
    false
}

/// The pieces of `s` between occurrences of `d`, as `str::split` with a character pattern.
pub open spec fn split_on(s: Seq<char>, d: char) -> Seq<Seq<char>>
    decreases s.len(),
{
    if s.len() == 0 {
        seq![Seq::empty()]
    } else {
        let rest = split_on(s.drop_last(), d);
        if s.last() == d {
            rest.push(Seq::empty())
        } else {
            rest.update(rest.len() - 1, rest.last().push(s.last()))
        }
    }
}

/// The characters of each string.
pub open spec fn views(v: Seq<String>) -> Seq<Seq<char>> {
    v.map_values(|x: String| x@)
}

/// Splits `s` at each comma.
pub fn split_commas(s: &str) -> (r: Vec<String>)
    ensures
        views(r@) == split_on(s@, ','),
{
    let n = s.unicode_len();
    let mut out: Vec<String> = Vec::new();
    let mut start: usize = 0;
    let mut i: usize = 0;
    assert(s@.subrange(0, 0) =~= Seq::<char>::empty());
    assert(views(out@) =~= Seq::<Seq<char>>::empty());
    assert(views(out@).push(s@.subrange(0, 0)) =~= split_on(s@.subrange(0, 0), ','));
    while i < n
        invariant
            n == s@.len(),
            start <= i <= n,
            split_on(s@.subrange(0, i as int), ',') == views(out@).push(s@.subrange(start as int, i as int)),
        decreases n - i,
    {
        let c = s.get_char(i);
        let ghost pre = s@.subrange(0, i as int);
        let ghost now = s@.subrange(0, i + 1);
        let ghost rest = split_on(pre, ',');
        assert(now.drop_last() =~= pre);
        assert(now.last() == c);
        assert(now.len() > 0);
        let ghost out0 = out@;
        let ghost start0 = start;
        if c == ',' {
            out.push(String::from_str(s.substring_char(start, i)));
            start = i + 1;
            assert(split_on(now, ',') == rest.push(Seq::empty()));
            assert(s@.subrange(start as int, i + 1) =~= Seq::<char>::empty());
            assert(views(out@) =~= views(out0).push(s@.subrange(start0 as int, i as int)));
            assert(split_on(now, ',') =~= views(out@).push(s@.subrange(start as int, i + 1)));
        } else {
            assert(split_on(now, ',') == rest.update(rest.len() - 1, rest.last().push(c)));
            assert(s@.subrange(start as int, i + 1) =~= s@.subrange(start as int, i as int).push(c));
            assert(split_on(now, ',') =~= views(out@).push(s@.subrange(start as int, i + 1)));
        }
        i = i + 1;
    }
    assert(s@.subrange(0, n as int) =~= s@);
    out.push(String::from_str(s.substring_char(start, n)));
    assert(views(out@) =~= split_on(s@, ','));
    out
}

} // verus!

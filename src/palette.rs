use vstd::prelude::*;
use crate::colour::Rgb;
use crate::text::{str_eq, views};

verus! {

/// The canonical name that a flag name stands for: aliases are resolved,
/// any other name is kept.
pub open spec fn resolve_alias(f: Seq<char>) -> Seq<char> {
    if f == "lgbt"@ { "pride"@ }
    else if f == "aro"@ { "aromantic"@ }
    else if f == "ace"@ { "asexual"@ }
    else if f == "bi"@ { "bisexual"@ }
    else if f == "enby"@ { "nonbinary"@ }
    else if f == "nb"@ { "nonbinary"@ }
    else if f == "pan"@ { "pansexual"@ }
    else if f == "trans"@ { "transgender"@ }
    else { f }
}

/// The stripes of each flag of the catalog, top to bottom.
pub open spec fn raw_colours(f: Seq<char>) -> Option<Seq<Rgb>> {
    if f == "pride"@ {
        Some(seq![Rgb(228, 3, 3), Rgb(255, 140, 0), Rgb(255, 237, 0),
                  Rgb(0, 128, 38), Rgb(0, 77, 255), Rgb(117, 7, 135)])
    } else if f == "agender"@ {
        Some(seq![Rgb(0, 0, 0), Rgb(185, 185, 185), Rgb(255, 255, 255),
                  Rgb(184, 244, 131),
                  Rgb(255, 255, 255), Rgb(185, 185, 185), Rgb(0, 0, 0)])
    } else if f == "aromantic"@ {
        Some(seq![Rgb(61, 165, 66), Rgb(167, 211, 121),
                  Rgb(255, 255, 255), Rgb(169, 169, 169), Rgb(0, 0, 0)])
    } else if f == "asexual"@ {
        Some(seq![Rgb(0, 0, 0), Rgb(163, 163, 163),
                  Rgb(255, 255, 255), Rgb(128, 0, 128)])
    } else if f == "bisexual"@ {
        Some(seq![Rgb(214, 2, 112), Rgb(214, 2, 112), Rgb(155, 79, 150),
                  Rgb(0, 56, 168), Rgb(0, 56, 168)])
    } else if f == "genderfluid"@ {
        Some(seq![Rgb(255, 117, 162), Rgb(255, 255, 255),
                  Rgb(190, 24, 214), Rgb(0, 0, 0), Rgb(51, 62, 189)])
    } else if f == "genderqueer"@ {
        Some(seq![Rgb(181, 126, 220), Rgb(255, 255, 255), Rgb(74, 129, 35)])
    } else if f == "lesbian"@ {
        Some(seq![Rgb(213, 45, 0), Rgb(255, 154, 86), Rgb(255, 255, 255),
                  Rgb(211, 98, 164), Rgb(163, 2, 98)])
    } else if f == "nonbinary"@ {
        Some(seq![Rgb(255, 244, 48), Rgb(255, 255, 255),
                  Rgb(156, 89, 209), Rgb(0, 0, 0)])
    } else if f == "pansexual"@ {
        Some(seq![Rgb(255, 33, 140), Rgb(255, 216, 0), Rgb(33, 177, 255)])
    } else if f == "polysexual"@ {
        Some(seq![Rgb(246, 28, 185), Rgb(7, 213, 105), Rgb(28, 146, 246)])
    } else if f == "transgender"@ {
        Some(seq![Rgb(91, 206, 250), Rgb(245, 169, 184), Rgb(255, 255, 255),
                  Rgb(245, 169, 184), Rgb(91, 206, 250)])
    } else {
        None
    }
}

/// Each colour of `cs` twice in a row.
pub open spec fn doubled(cs: Seq<Rgb>) -> Seq<Rgb> {
    Seq::new(2 * cs.len(), |i: int| cs[i / 2])
}

/// Short lists (three colours or fewer) are doubled; longer ones are kept.
pub open spec fn widened(cs: Seq<Rgb>) -> Seq<Rgb> {
    if cs.len() > 3 { cs } else { doubled(cs) }
}

/// The colours a flag name gives, or `None` for a name the catalog lacks.
pub open spec fn flag_colours(f: Seq<char>) -> Option<Seq<Rgb>> {
    match raw_colours(resolve_alias(f)) {
        Some(cs) => Some(widened(cs)),
        None => None,
    }
}

/// A flag name that the catalog lacks.
pub struct UnknownFlag {
    pub flag: String,
}

impl UnknownFlag {
    /// The diagnostic line for this error.
    pub fn message(&self) -> (r: String)
        ensures
            r@ == "unknown flag: "@ + self.flag@,
    {
        let mut r = String::from_str("unknown flag: ");
        r.append(self.flag.as_str());
        r
    }
}

fn canonical<'a>(flag: &'a str) -> (r: &'a str)
    ensures
        r@ == resolve_alias(flag@),
{
    if str_eq(flag, "lgbt") { "pride" }
    else if str_eq(flag, "aro") { "aromantic" }
    else if str_eq(flag, "ace") { "asexual" }
    else if str_eq(flag, "bi") { "bisexual" }
    else if str_eq(flag, "enby") { "nonbinary" }
    else if str_eq(flag, "nb") { "nonbinary" }
    else if str_eq(flag, "pan") { "pansexual" }
    else if str_eq(flag, "trans") { "transgender" }
    else { flag }
}

fn stripes(f: &str) -> (r: Option<Vec<Rgb>>)
    ensures
        match raw_colours(f@) {
            Some(cs) => r is Some && r->Some_0@ == cs,
            None => r is None,
        },
{
    if str_eq(f, "pride") {
        Some(vec![Rgb(228, 3, 3), Rgb(255, 140, 0), Rgb(255, 237, 0),
                  Rgb(0, 128, 38), Rgb(0, 77, 255), Rgb(117, 7, 135)])
    } else if str_eq(f, "agender") {
        Some(vec![Rgb(0, 0, 0), Rgb(185, 185, 185), Rgb(255, 255, 255),
                  Rgb(184, 244, 131),
                  Rgb(255, 255, 255), Rgb(185, 185, 185), Rgb(0, 0, 0)])
    } else if str_eq(f, "aromantic") {
        Some(vec![Rgb(61, 165, 66), Rgb(167, 211, 121),
                  Rgb(255, 255, 255), Rgb(169, 169, 169), Rgb(0, 0, 0)])
    } else if str_eq(f, "asexual") {
        Some(vec![Rgb(0, 0, 0), Rgb(163, 163, 163),
                  Rgb(255, 255, 255), Rgb(128, 0, 128)])
    } else if str_eq(f, "bisexual") {
        Some(vec![Rgb(214, 2, 112), Rgb(214, 2, 112), Rgb(155, 79, 150),
                  Rgb(0, 56, 168), Rgb(0, 56, 168)])
    } else if str_eq(f, "genderfluid") {
        Some(vec![Rgb(255, 117, 162), Rgb(255, 255, 255),
                  Rgb(190, 24, 214), Rgb(0, 0, 0), Rgb(51, 62, 189)])
    } else if str_eq(f, "genderqueer") {
        Some(vec![Rgb(181, 126, 220), Rgb(255, 255, 255), Rgb(74, 129, 35)])
    } else if str_eq(f, "lesbian") {
        Some(vec![Rgb(213, 45, 0), Rgb(255, 154, 86), Rgb(255, 255, 255),
                  Rgb(211, 98, 164), Rgb(163, 2, 98)])
    } else if str_eq(f, "nonbinary") {
        Some(vec![Rgb(255, 244, 48), Rgb(255, 255, 255),
                  Rgb(156, 89, 209), Rgb(0, 0, 0)])
    } else if str_eq(f, "pansexual") {
        Some(vec![Rgb(255, 33, 140), Rgb(255, 216, 0), Rgb(33, 177, 255)])
    } else if str_eq(f, "polysexual") {
        Some(vec![Rgb(246, 28, 185), Rgb(7, 213, 105), Rgb(28, 146, 246)])
    } else if str_eq(f, "transgender") {
        Some(vec![Rgb(91, 206, 250), Rgb(245, 169, 184), Rgb(255, 255, 255),
                  Rgb(245, 169, 184), Rgb(91, 206, 250)])
    } else {
        None
    }
}

fn widen(cs: Vec<Rgb>) -> (r: Vec<Rgb>)
    ensures
        r@ == widened(cs@),
{
    if cs.len() > 3 {
        return cs;
    }
    let mut out: Vec<Rgb> = Vec::new();
    let mut i: usize = 0;
    while i < cs.len()
        invariant
            cs@.len() <= 3,
            i <= cs@.len(),
            out@.len() == 2 * i,
            forall|k: int| 0 <= k < 2 * i ==> #[trigger] out@[k] == cs@[k / 2],
        decreases cs.len() - i,
    {
        out.push(cs[i]);
        out.push(cs[i]);
        i = i + 1;
    }
    assert(out@ =~= doubled(cs@));
    out
}

/// The colours of one flag, by name or alias; short flags come doubled.
pub fn flag2colours(flag: &str) -> (r: Result<Vec<Rgb>, UnknownFlag>)
    ensures
        match flag_colours(flag@) {
            Some(cs) => r is Ok && r->Ok_0@ == cs,
            None => r is Err && r->Err_0.flag@ == flag@,
        },
{
    match stripes(canonical(flag)) {
        Some(cs) => Ok(widen(cs)),
        None => Err(UnknownFlag { flag: String::from_str(flag) }),
    }
}

/// Short flags: three colours or fewer come out twice as long, each colour
/// twice in a row, in their order.
pub proof fn lemma_short_flag_doubled(f: Seq<char>)
    requires
        raw_colours(resolve_alias(f)) is Some,
        raw_colours(resolve_alias(f))->Some_0.len() <= 3,
    ensures
        flag_colours(f) is Some,
        flag_colours(f)->Some_0.len() == 2 * raw_colours(resolve_alias(f))->Some_0.len(),
        forall|k: int|
            0 <= k < raw_colours(resolve_alias(f))->Some_0.len() ==> {
                &&& flag_colours(f)->Some_0[2 * k] == raw_colours(resolve_alias(f))->Some_0[k]
                &&& flag_colours(f)->Some_0[2 * k + 1] == raw_colours(resolve_alias(f))->Some_0[k]
            },
{
    let raw = raw_colours(resolve_alias(f))->Some_0;
    let out = flag_colours(f)->Some_0;
    assert forall|k: int| 0 <= k < raw.len() implies out[2 * k] == raw[k] && out[2 * k + 1] == raw[k] by {
        assert((2 * k) / 2 == k);
        assert((2 * k + 1) / 2 == k);
    }
}

/// The canonical names of the catalog, in the order the demonstration shows them.
pub open spec fn catalog_names() -> Seq<Seq<char>> {
    seq!["pride"@, "agender"@, "aromantic"@, "asexual"@, "bisexual"@, "genderfluid"@,
         "genderqueer"@, "lesbian"@, "nonbinary"@, "pansexual"@, "polysexual"@, "transgender"@]
}

/// The canonical flag names.
pub fn flag_names() -> (r: Vec<&'static str>)
    ensures
        r@.map_values(|n: &'static str| n@) == catalog_names(),
{
    let r = vec!["pride", "agender", "aromantic", "asexual", "bisexual", "genderfluid",
                 "genderqueer", "lesbian", "nonbinary", "pansexual", "polysexual", "transgender"];
    assert(r@.map_values(|n: &'static str| n@) =~= catalog_names());
    r
}

/// Every flag name of `fs` is in the catalog.
pub open spec fn all_known(fs: Seq<Seq<char>>) -> bool {
    forall|i: int| 0 <= i < fs.len() ==> (#[trigger] flag_colours(fs[i])) is Some
}

/// The colours of all flags of `fs`, in order, one flag after the other.
pub open spec fn concat_colours(fs: Seq<Seq<char>>) -> Seq<Rgb>
    decreases fs.len(),
{
    if fs.len() == 0 {
        Seq::empty()
    } else {
        concat_colours(fs.drop_last()) + match flag_colours(fs.last()) {
            Some(cs) => cs,
            None => Seq::empty(),
        }
    }
}

/// `fs[j]` is the first name of `fs` that the catalog lacks.
pub open spec fn first_unknown(fs: Seq<Seq<char>>, j: int) -> bool {
    &&& 0 <= j < fs.len()
    &&& flag_colours(fs[j]) is None
    &&& all_known(fs.subrange(0, j))
}

/// The colours of all the given flags, concatenated in order; fails on the
/// first name that is not in the catalog.
pub fn colours(flags: Vec<String>) -> (r: Result<Vec<Rgb>, UnknownFlag>)
    ensures
        all_known(views(flags@)) ==> r is Ok && r->Ok_0@ == concat_colours(views(flags@)),
        !all_known(views(flags@)) ==> r is Err && exists|j: int|
            first_unknown(views(flags@), j) && r->Err_0.flag@ == #[trigger] views(flags@)[j],
{
    let ghost fs = views(flags@);
    let mut out: Vec<Rgb> = Vec::new();
    let mut i: usize = 0;
    while i < flags.len()
        invariant
            fs == views(flags@),
            i <= flags@.len(),
            all_known(fs.subrange(0, i as int)),
            out@ == concat_colours(fs.subrange(0, i as int)),
        decreases flags.len() - i,
    {
        let ghost pre = fs.subrange(0, i as int);
        let ghost now = fs.subrange(0, i + 1);
        assert(now.drop_last() =~= pre);
        assert(now.last() == flags@[i as int]@);
        match flag2colours(flags[i].as_str()) {
            Ok(cs) => {
                let mut cs = cs;
                out.append(&mut cs);
                assert(all_known(now)) by {
                    assert forall|k: int| 0 <= k < now.len() implies (#[trigger] flag_colours(now[k])) is Some by {
                        if k < i {
                            assert(now[k] == pre[k]);
                        }
                    }
                }
            },
            Err(e) => {
                assert(first_unknown(fs, i as int));
                return Err(e);
            },
        }
        i = i + 1;
    }
    assert(fs.subrange(0, i as int) =~= fs);
    Ok(out)
}

} // verus!

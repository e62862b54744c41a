use vstd::prelude::*;
use crate::text::{contains, occurs_in, split_commas, split_on, views};

verus! {

/// The command line, as parsed.
pub struct Cli {
    /// Flag names and aliases, each possibly a comma-separated group.
    pub flags: Vec<String>,
    /// Colour the background instead of the foreground.
    pub bg: bool,
    /// Use 24-bit colour.
    pub tc: bool,
    /// Explicitly refuse 24-bit colour.
    pub no_tc: bool,
    /// The terminal is light.
    pub light: bool,
    /// Show every flag instead of reading files.
    pub demo: bool,
    /// Paths to read; `-` is standard input.
    pub files: Vec<String>,
}

/// The terminal's colour hint advertises 24-bit colour.
pub open spec fn truecolor_hint(ct: Seq<char>) -> bool {
    occurs_in("truecolor"@, ct) || occurs_in("24bit"@, ct)
}

/// Whether a `COLORTERM` value advertises 24-bit colour.
pub fn detect_truecolor(colorterm: &str) -> (r: bool)
    ensures
        r == truecolor_hint(colorterm@),
{
    contains(colorterm, "truecolor") || contains(colorterm, "24bit")
}

/// The flags that are used where none is asked for.
pub open spec fn default_flags() -> Seq<Seq<char>> {
    seq!["pride"@]
}

/// The command line with its defaults filled in: 24-bit colour as asked,
/// else as the terminal's colour hint `colorterm` advertises; the pride flag
/// where no flag is named.
pub fn parse_args(cli: Cli, colorterm: &str) -> (r: Cli)
    ensures
        r.tc == (if cli.no_tc { false } else if cli.tc { true } else { truecolor_hint(colorterm@) }),
        views(r.flags@) == (if cli.flags@.len() == 0 { default_flags() } else { views(cli.flags@) }),
        r.bg == cli.bg,
        r.no_tc == cli.no_tc,
        r.light == cli.light,
        r.demo == cli.demo,
        r.files@ == cli.files@,
{
    let Cli { flags, bg, tc, no_tc, light, demo, files } = cli;
    let tc = if no_tc { false } else if tc { true } else { detect_truecolor(colorterm) };
    let flags = if flags.len() == 0 {
        let mut d: Vec<String> = Vec::new();
        d.push(String::from_str("pride"));
        assert(views(d@) =~= default_flags());
        d
    } else {
        flags
    };
    Cli { flags, bg, tc, no_tc, light, demo, files }
}

/// Each group of `fs` split at its commas, the pieces kept in order.
pub open spec fn expand(fs: Seq<Seq<char>>) -> Seq<Seq<char>>
    decreases fs.len(),
{
    if fs.len() == 0 {
        Seq::empty()
    } else {
        expand(fs.drop_last()) + split_on(fs.last(), ',')
    }
}

/// The flag names of all groups, split at commas, in order.
pub fn expand_flags(flags: &Vec<String>) -> (r: Vec<String>)
    ensures
        views(r@) == expand(views(flags@)),
{
    let ghost fs = views(flags@);
    let mut out: Vec<String> = Vec::new();
    let mut i: usize = 0;
    while i < flags.len()
        invariant
            fs == views(flags@),
            i <= flags@.len(),
            views(out@) == expand(fs.subrange(0, i as int)),
        decreases flags.len() - i,
    {
        let ghost now = fs.subrange(0, i + 1);
        assert(now.drop_last() =~= fs.subrange(0, i as int));
        let mut parts = split_commas(flags[i].as_str());
        let ghost before = out@;
        let ghost added = parts@;
        out.append(&mut parts);
        assert(views(out@) =~= views(before) + views(added));
        i = i + 1;
    }
    assert(fs.subrange(0, i as int) =~= fs);
    out
}

} // verus!

use vstd::prelude::*;
use crate::colour::{Rgb, brightness, indexed, rgbto8, too_dark, too_light};
use crate::text::{dec, push_dec};

verus! {

/// The two characters that open an ANSI control sequence.
pub open spec fn csi() -> Seq<char> {
    seq!['\x1b', '[']
}

/// The colour parameters after the ground's SGR code: `2;R;G;B` for 24-bit
/// colour, `5;I` for the 256-colour palette.
pub open spec fn colour_params(tc: bool, c: Rgb) -> Seq<char> {
    if tc {
        seq!['2', ';'] + dec(c.0 as nat) + seq![';'] + dec(c.1 as nat) + seq![';'] + dec(c.2 as nat)
    } else {
        seq!['5', ';'] + dec(indexed(c) as nat)
    }
}

/// The sequence that sets the background (`bg`) or foreground colour to `c`.
pub open spec fn set_seq(bg: bool, tc: bool, c: Rgb) -> Seq<char> {
    csi() + (if bg { seq!['4', '8'] } else { seq!['3', '8'] }) + seq![';'] + colour_params(tc, c)
        + seq!['m']
}

/// The sequence that resets the background (`bg`) or foreground colour.
pub open spec fn reset_seq(bg: bool) -> Seq<char> {
    csi() + (if bg { seq!['4', '9'] } else { seq!['3', '9'] }) + seq![';', 'm']
}

/// The sequence that erases the whole line.
pub open spec fn erase_line_seq() -> Seq<char> {
    csi() + seq!['2', 'K']
}

/// `s` between the set and reset sequences, with the line erased first when
/// a background is set and `clear` asks for it.
pub open spec fn wrapped(bg: bool, tc: bool, c: Rgb, s: Seq<char>, clear: bool) -> Seq<char> {
    set_seq(bg, tc, c) + (if bg && clear { erase_line_seq() } else { Seq::empty() }) + s
        + reset_seq(bg)
}

/// Whether the context of the text counts as dark: foreground text on a
/// light terminal, or a background fill on a dark one.
pub open spec fn dark_appearance(bg: bool, light: bool) -> bool {
    if light { bg } else { !bg }
}

/// The colour laid over the other ground so that `c` stays legible, if any:
/// white where the context is dark and `c` too dark, black where it is light
/// and `c` too light.
pub open spec fn overlay(bg: bool, light: bool, c: Rgb) -> Option<Rgb> {
    if dark_appearance(bg, light) && too_dark(c) {
        Some(Rgb(255, 255, 255))
    } else if !dark_appearance(bg, light) && too_light(c) {
        Some(Rgb(0, 0, 0))
    } else {
        None
    }
}

/// `s` coloured with `c`, with the contrast overlay (if any) inside.
pub open spec fn coloured(bg: bool, tc: bool, light: bool, c: Rgb, s: Seq<char>, clear: bool) -> Seq<char> {
    let t = match overlay(bg, light, c) {
        Some(o) => wrapped(!bg, tc, o, s, clear),
        None => s,
    };
    wrapped(bg, tc, c, t, clear)
}

/// The overlay follows the table of the four grounds and terminals: on a dark
/// terminal, foreground text too dark gets white and background fill too
/// light gets black; on a light terminal, foreground text too light gets
/// black and background fill too dark gets white.
pub proof fn lemma_overlay_table(c: Rgb)
    ensures
        overlay(false, false, c) == (if too_dark(c) { Some(Rgb(255, 255, 255)) } else { None::<Rgb> }),
        overlay(true, false, c) == (if too_light(c) { Some(Rgb(0, 0, 0)) } else { None::<Rgb> }),
        overlay(false, true, c) == (if too_light(c) { Some(Rgb(0, 0, 0)) } else { None::<Rgb> }),
        overlay(true, true, c) == (if too_dark(c) { Some(Rgb(255, 255, 255)) } else { None::<Rgb> }),
{
}

/// Appends `csi()` to `out`.
fn push_csi(out: &mut String)
    ensures
        final(out)@ == old(out)@ + csi(),
{
    proof {
        reveal_strlit("\x1b[");
    }
    out.append("\x1b[");
    assert(final(out)@ =~= old(out)@ + csi());
}

/// The escape sequence that sets the colour of one ground.
pub fn set_colour(bg: bool, tc: bool, c: &Rgb) -> (r: String)
    ensures
        r@ == set_seq(bg, tc, *c),
{
    proof {
        reveal_strlit("48;");
        reveal_strlit("38;");
        reveal_strlit("2;");
        reveal_strlit("5;");
        reveal_strlit(";");
        reveal_strlit("m");
    }
    let mut out = String::new();
    push_csi(&mut out);
    if bg {
        out.append("48;");
    } else {
        out.append("38;");
    }
    let ghost head = out@;
    if tc {
        out.append("2;");
        push_dec(&mut out, c.0);
        out.append(";");
        push_dec(&mut out, c.1);
        out.append(";");
        push_dec(&mut out, c.2);
    } else {
        out.append("5;");
        push_dec(&mut out, rgbto8(c));
    }
    assert(out@ =~= head + colour_params(tc, *c));
    out.append("m");
    assert(out@ =~= set_seq(bg, tc, *c));
    out
}

/// The escape sequence that resets the colour of one ground.
pub fn reset_colour(bg: bool) -> (r: String)
    ensures
        r@ == reset_seq(bg),
{
    proof {
        reveal_strlit("49;m");
        reveal_strlit("39;m");
    }
    let mut out = String::new();
    push_csi(&mut out);
    if bg {
        out.append("49;m");
    } else {
        out.append("39;m");
    }
    assert(out@ =~= reset_seq(bg));
    out
}

/// `s` wrapped in the sequences that set and reset the colour of one ground.
pub fn with_colour(bg: bool, tc: bool, c: &Rgb, s: &str, clear: bool) -> (r: String)
    ensures
        r@ == wrapped(bg, tc, *c, s@, clear),
{
    let mut out = set_colour(bg, tc, c);
    if bg && clear {
        proof {
            reveal_strlit("2K");
        }
        push_csi(&mut out);
        out.append("2K");
    }
    out.append(s);
    let reset = reset_colour(bg);
    out.append(reset.as_str());
    assert(out@ =~= wrapped(bg, tc, *c, s@, clear));
    out
}

/// The overlay colour that keeps `c` legible, if any is needed.
pub fn contrast_overlay(bg: bool, light: bool, c: &Rgb) -> (r: Option<Rgb>)
    ensures
        r == overlay(bg, light, *c),
{
    let da = if light { bg } else { !bg };
    let b = brightness(c);
    if da && b < 51 {
        Some(Rgb(255, 255, 255))
    } else if !da && b > 191 {
        Some(Rgb(0, 0, 0))
    } else {
        None
    }
}

/// `s` coloured with `c` on one ground, with a black or white overlay on the
/// other ground where `c` alone would be hard to read.
pub fn colour(bg: bool, tc: bool, li: bool, c: &Rgb, s: &str, clear: bool) -> (r: String)
    ensures
        r@ == coloured(bg, tc, li, *c, s@, clear),
{
    match contrast_overlay(bg, li, c) {
        Some(o) => {
            let t = with_colour(!bg, tc, &o, s, clear);
            with_colour(bg, tc, c, t.as_str(), clear)
        },
        None => with_colour(bg, tc, c, s, clear),
    }
}

} // verus!

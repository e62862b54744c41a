use proudcat::colour::{brightness, rgbto8, Rgb};
use proudcat::config::{detect_truecolor, expand_flags, parse_args, Cli};
use proudcat::cycler::Cycler;
use proudcat::line::{colour_line, demo_box, find_char};
use proudcat::palette::{colours, flag2colours, flag_names};
use proudcat::render::{colour, contrast_overlay, reset_colour, set_colour, with_colour};
use proudcat::text::{contains, is_whitespace, push_dec, split_commas, str_eq, trim_bounds};

fn pride() -> Vec<Rgb> {
    vec![
        Rgb(228, 3, 3),
        Rgb(255, 140, 0),
        Rgb(255, 237, 0),
        Rgb(0, 128, 38),
        Rgb(0, 77, 255),
        Rgb(117, 7, 135),
    ]
}

fn strings(v: &[&str]) -> Vec<String> {
    v.iter().map(|s| s.to_string()).collect()
}

fn pride_cycler() -> Cycler {
    Cycler::new(flag2colours("pride").ok().unwrap())
}

#[test]
fn indexed_colour_values() {
    assert_eq!(rgbto8(&Rgb(0, 0, 0)), 16);
    assert_eq!(rgbto8(&Rgb(255, 255, 255)), 231);
    assert_eq!(rgbto8(&Rgb(228, 3, 3)), 196);
    assert_eq!(rgbto8(&Rgb(0, 77, 255)), 16 + 6 + 5);
    assert_eq!(rgbto8(&Rgb(42, 43, 86)), 16 + 0 + 6 + 2);
}

#[test]
fn indexed_colour_always_in_cube() {
    for r in (0..=255u16).step_by(5) {
        for g in (0..=255u16).step_by(7) {
            for b in [0u16, 1, 42, 43, 127, 128, 213, 214, 255] {
                let i = rgbto8(&Rgb(r as u8, g as u8, b as u8));
                assert!((16..=231).contains(&i));
            }
        }
    }
}

#[test]
fn brightness_values() {
    assert_eq!(brightness(&Rgb(0, 0, 0)), 0);
    assert_eq!(brightness(&Rgb(255, 255, 255)), 255);
    assert_eq!(brightness(&Rgb(228, 3, 3)), 70);
    assert_eq!(brightness(&Rgb(0, 0, 255)), 29);
}

#[test]
fn brightness_monotone_in_each_channel() {
    for a in (0..=255u16).step_by(3) {
        for x in (0..=255u16).step_by(17) {
            let (a, x) = (a as u8, x as u8);
            if x >= a {
                assert!(brightness(&Rgb(x, 9, 200)) >= brightness(&Rgb(a, 9, 200)));
                assert!(brightness(&Rgb(77, x, 3)) >= brightness(&Rgb(77, a, 3)));
                assert!(brightness(&Rgb(250, 1, x)) >= brightness(&Rgb(250, 1, a)));
            }
        }
    }
}

#[test]
fn brightness_thresholds_match_fractions() {
    for b in 0..=255u16 {
        let f = b as f32 / 255f32;
        let dark = contrast_overlay(false, false, &grey_of(b as u8)).is_some();
        assert_eq!(f < 0.20, b < 51);
        assert_eq!(f > 0.75, b > 191);
        assert_eq!(dark, brightness(&grey_of(b as u8)) < 51);
    }
}

fn grey_of(v: u8) -> Rgb {
    Rgb(v, v, v)
}

#[test]
fn pride_palette_exact() {
    assert_eq!(flag2colours("pride").ok().unwrap(), pride());
    assert_eq!(flag2colours("lgbt").ok().unwrap(), pride());
}

#[test]
fn aliases_resolve() {
    let pairs = [
        ("aro", "aromantic"),
        ("ace", "asexual"),
        ("bi", "bisexual"),
        ("enby", "nonbinary"),
        ("nb", "nonbinary"),
        ("pan", "pansexual"),
        ("trans", "transgender"),
    ];
    for (alias, name) in pairs {
        assert_eq!(flag2colours(alias).ok().unwrap(), flag2colours(name).ok().unwrap());
    }
}

#[test]
fn short_palettes_doubled() {
    let pan = flag2colours("pansexual").ok().unwrap();
    let (a, b, c) = (Rgb(255, 33, 140), Rgb(255, 216, 0), Rgb(33, 177, 255));
    assert_eq!(pan, vec![a, a, b, b, c, c]);
    let gq = flag2colours("genderqueer").ok().unwrap();
    assert_eq!(gq.len(), 6);
    assert_eq!(gq[0], gq[1]);
    assert_eq!(gq[2], Rgb(255, 255, 255));
    assert_eq!(flag2colours("polysexual").ok().unwrap().len(), 6);
}

#[test]
fn long_palettes_kept() {
    assert_eq!(flag2colours("agender").ok().unwrap().len(), 7);
    assert_eq!(flag2colours("asexual").ok().unwrap().len(), 4);
    assert_eq!(flag2colours("nonbinary").ok().unwrap().len(), 4);
    assert_eq!(
        flag2colours("transgender").ok().unwrap(),
        vec![
            Rgb(91, 206, 250),
            Rgb(245, 169, 184),
            Rgb(255, 255, 255),
            Rgb(245, 169, 184),
            Rgb(91, 206, 250)
        ]
    );
}

#[test]
fn every_catalog_name_known() {
    let names = flag_names();
    assert_eq!(names.len(), 12);
    assert_eq!(names[0], "pride");
    assert_eq!(names[11], "transgender");
    for n in names {
        assert!(flag2colours(n).is_ok());
    }
}

#[test]
fn unknown_flag_is_an_error() {
    let e = flag2colours("notarealflag").err().unwrap();
    assert_eq!(e.flag, "notarealflag");
    assert_eq!(e.message(), "unknown flag: notarealflag");
    assert!(flag2colours("notareal\u{200b}flag").is_err());
    assert!(flag2colours("").is_err());
    assert!(flag2colours("Pride").is_err());
}

#[test]
fn unknown_flag_stops_colours() {
    let e = colours(strings(&["pride", "nope", "worse"])).err().unwrap();
    assert_eq!(e.flag, "nope");
}

#[test]
fn colours_concatenate_in_order() {
    let cs = colours(strings(&["pan", "pride", "pan"])).ok().unwrap();
    assert_eq!(cs.len(), 18);
    assert_eq!(cs[0], Rgb(255, 33, 140));
    assert_eq!(cs[6..12].to_vec(), pride());
    assert_eq!(cs[17], Rgb(33, 177, 255));
    assert!(colours(Vec::new()).ok().unwrap().is_empty());
}

#[test]
fn flags_expand_at_commas() {
    let fs = expand_flags(&strings(&["pride,trans", "ace", "a,,b,"]));
    assert_eq!(fs, strings(&["pride", "trans", "ace", "a", "", "b", ""]));
    assert_eq!(split_commas(""), strings(&[""]));
    assert_eq!(split_commas("x"), strings(&["x"]));
}

#[test]
fn cycler_wraps_round() {
    let mut c = pride_cycler();
    let p = pride();
    for k in 0..13 {
        assert_eq!(c.next(), p[k % 6]);
    }
}

#[test]
fn cycler_period_six_over_ten_thousand() {
    let mut c = pride_cycler();
    let got: Vec<Rgb> = (0..10000).map(|_| c.next()).collect();
    for k in 6..10000 {
        assert_eq!(got[k], got[k - 6]);
    }
    assert_ne!(got[0], got[1]);
}

#[test]
fn cycler_shared_across_files() {
    let mut c = pride_cycler();
    let first = colour_line("one\n", false, false, false, true, &mut c);
    let second = colour_line("two\n", false, false, false, true, &mut c);
    assert_eq!(first, format!("{}\n", colour(false, false, false, &pride()[0], "one", false)));
    assert_eq!(second, format!("{}\n", colour(false, false, false, &pride()[1], "two", false)));
}

#[test]
fn blank_line_passes_through_in_foreground() {
    let mut c = pride_cycler();
    assert_eq!(colour_line("\n", false, false, false, true, &mut c), "\n");
    assert_eq!(colour_line(" \t \n", false, true, false, true, &mut c), " \t \n");
    assert_eq!(colour_line("\n", true, false, false, false, &mut c), "\n");
    assert_eq!(c.next(), pride()[0]);
}

#[test]
fn blank_line_filled_in_background() {
    let mut c = pride_cycler();
    let out = colour_line("\n", true, false, false, true, &mut c);
    assert_eq!(out, "\x1b[48;5;196m\x1b[2K\x1b[49;m\n");
    assert!(out.contains("\x1b[48;5;"));
    assert!(out.contains("\x1b[2K"));
    assert_eq!(c.next(), pride()[1]);
}

#[test]
fn end_to_end_hello() {
    let mut c = pride_cycler();
    let out = colour_line("  hello\n", false, false, false, true, &mut c);
    assert_eq!(out, "  \x1b[38;5;196mhello\x1b[39;m\n");
    assert!(out.starts_with("  "));
    assert!(out.ends_with("\x1b[39;m\n"));
}

#[test]
fn line_parts_reassemble() {
    let lines = ["  hello world \t\n", "x", "\u{3000}\u{a0}wide\u{2003}\r\n", "a  b", " é\n"];
    for l in lines {
        let mut c = pride_cycler();
        let out = colour_line(l, false, false, false, true, &mut c);
        let (s, e) = trim_bounds(l);
        let chars: Vec<char> = l.chars().collect();
        let pre: String = chars[..s].iter().collect();
        let mid: String = chars[s..e].iter().collect();
        let post: String = chars[e..].iter().collect();
        assert_eq!(format!("{}{}{}", pre, mid, post), l);
        assert_eq!(mid, l.trim());
        let shown = colour(false, false, false, &pride()[0], l.trim(), false);
        assert_eq!(out, format!("{}{}{}", pre, shown, post));
        assert_eq!(strip_escapes(&out), l);
    }
}

fn strip_escapes(s: &str) -> String {
    let mut out = String::new();
    let mut it = s.chars().peekable();
    while let Some(c) = it.next() {
        if c == '\x1b' && it.peek() == Some(&'[') {
            it.next();
            for d in it.by_ref() {
                if ('@'..='~').contains(&d) {
                    break;
                }
            }
        } else {
            out.push(c);
        }
    }
    out
}

#[test]
fn contrast_overlay_table() {
    let (black, white) = (Rgb(0, 0, 0), Rgb(255, 255, 255));
    assert_eq!(contrast_overlay(false, false, &black), Some(white));
    assert_eq!(contrast_overlay(true, true, &white), None);
    assert_eq!(contrast_overlay(true, true, &black), Some(white));
    assert_eq!(contrast_overlay(true, false, &white), Some(black));
    assert_eq!(contrast_overlay(false, true, &white), Some(black));
    assert_eq!(contrast_overlay(false, true, &black), None);
    assert_eq!(contrast_overlay(true, false, &black), None);
    assert_eq!(contrast_overlay(false, false, &white), None);
    assert_eq!(contrast_overlay(false, false, &Rgb(0, 0, 255)), Some(white));
    assert_eq!(contrast_overlay(false, false, &Rgb(228, 3, 3)), None);
}

#[test]
fn black_foreground_gets_white_overlay() {
    let s = colour(false, false, false, &Rgb(0, 0, 0), "x", false);
    assert_eq!(s, "\x1b[38;5;16m\x1b[48;5;231mx\x1b[49;m\x1b[39;m");
    let t = colour(true, false, true, &Rgb(255, 255, 255), "x", false);
    assert_eq!(t, "\x1b[48;5;231mx\x1b[49;m");
    let u = colour(true, true, false, &Rgb(255, 255, 255), "x", true);
    assert_eq!(u, "\x1b[48;2;255;255;255m\x1b[2K\x1b[38;2;0;0;0mx\x1b[39;m\x1b[49;m");
}

#[test]
fn escape_sequences() {
    assert_eq!(with_colour(false, true, &Rgb(1, 22, 255), "a", false), "\x1b[38;2;1;22;255ma\x1b[39;m");
    assert_eq!(with_colour(true, true, &Rgb(1, 22, 255), "a", true), "\x1b[48;2;1;22;255m\x1b[2Ka\x1b[49;m");
    assert_eq!(with_colour(false, false, &Rgb(1, 22, 255), "a", true), "\x1b[38;5;21ma\x1b[39;m");
    assert_eq!(set_colour(true, false, &Rgb(255, 140, 0)), "\x1b[48;5;214m");
    assert_eq!(reset_colour(true), "\x1b[49;m");
    assert_eq!(reset_colour(false), "\x1b[39;m");
}

#[test]
fn decimal_digits() {
    for n in [0u8, 7, 10, 99, 100, 205, 255] {
        let mut s = String::from("x");
        push_dec(&mut s, n);
        assert_eq!(s, format!("x{}", n));
    }
}

#[test]
fn text_helpers() {
    assert!(is_whitespace('\u{3000}'));
    assert!(is_whitespace('\u{85}'));
    assert!(!is_whitespace('\u{200b}'));
    assert!(!is_whitespace('a'));
    assert_eq!(trim_bounds("  ab \n"), (2, 4));
    assert_eq!(trim_bounds(" \n"), (2, 2));
    assert!(str_eq("ab", "ab"));
    assert!(!str_eq("ab", "abc"));
    assert!(contains("xx24bitx", "24bit"));
    assert!(!contains("24bi", "24bit"));
    assert_eq!(find_char("  a a", 'a'), Some(2));
    assert_eq!(find_char("  ", 'a'), None);
}

#[test]
fn truecolor_detection() {
    assert!(detect_truecolor("truecolor"));
    assert!(detect_truecolor("24bit"));
    assert!(detect_truecolor("x-truecolor-y"));
    assert!(!detect_truecolor(""));
    assert!(!detect_truecolor("256color"));
}

fn cli(flags: &[&str], tc: bool, no_tc: bool) -> Cli {
    Cli {
        flags: strings(flags),
        bg: true,
        tc,
        no_tc,
        light: false,
        demo: false,
        files: strings(&["-"]),
    }
}

#[test]
fn args_defaults() {
    let c = parse_args(cli(&[], false, false), "truecolor");
    assert_eq!(c.flags, strings(&["pride"]));
    assert!(c.tc);
    assert!(c.bg);
    assert_eq!(c.files, strings(&["-"]));
    let d = parse_args(cli(&["bi"], false, false), "");
    assert_eq!(d.flags, strings(&["bi"]));
    assert!(!d.tc);
    assert!(parse_args(cli(&[], true, false), "").tc);
    assert!(!parse_args(cli(&[], false, true), "24bit").tc);
}

#[test]
fn demo_box_lines() {
    let lines = demo_box("pan", false, false, false).ok().unwrap();
    assert_eq!(lines.len(), 8);
    assert_eq!(lines[0], "\u{250c}\u{2500}\u{2500}\u{2500}\u{2510}");
    assert_eq!(lines[7], "\u{2514}\u{2500}\u{2500}\u{2500}\u{2518}");
    let row = format!("\u{2502}{}\u{2502}", colour(false, false, false, &Rgb(255, 33, 140), "pan", false));
    assert_eq!(lines[1], row);
    assert_eq!(lines[2], row);
    assert!(demo_box("nope", false, false, false).is_err());
}

#[test]
fn foreground_overlay_does_not_erase_line() {
    let mut c = Cycler::new(vec![Rgb(255, 255, 255)]);
    let out = colour_line("x\n", false, false, true, true, &mut c);
    assert_eq!(out, "\x1b[38;5;231m\x1b[48;5;16mx\x1b[49;m\x1b[39;m\n");
    assert!(!out.contains("\x1b[2K"));
    let mut d = Cycler::new(vec![Rgb(0, 0, 0)]);
    let out = colour_line("  x\n", false, true, false, true, &mut d);
    assert_eq!(out, "  \x1b[38;2;0;0;0m\x1b[48;2;255;255;255mx\x1b[49;m\x1b[39;m\n");
    assert!(!out.contains("\x1b[2K"));
}

#[test]
fn background_overlay_erases_line_once() {
    let mut c = Cycler::new(vec![Rgb(255, 255, 255)]);
    let out = colour_line("x\n", true, false, false, true, &mut c);
    assert_eq!(out, "\x1b[48;5;231m\x1b[2K\x1b[38;5;16mx\x1b[39;m\x1b[49;m\n");
    assert_eq!(out.matches("\x1b[2K").count(), 1);
}

use vstd::prelude::*;

verus! {

/// An RGB colour: red, green and blue channels.
#[derive(Clone, Copy, Debug, PartialEq, Eq, Structural)]
pub struct Rgb(pub u8, pub u8, pub u8);

/// One channel quantised to the six steps of the xterm colour cube.
pub open spec fn cube_step(x: u8) -> int {
    (x as int) * 6 / 256
}

/// Index of the xterm 256-colour palette entry nearest to `c` in the 6x6x6 cube.
pub open spec fn indexed(c: Rgb) -> int {
    16 + cube_step(c.0) * 36 + cube_step(c.1) * 6 + cube_step(c.2)
}

/// Perceptual brightness (NTSC luma, truncated), as a numerator over 255.
pub open spec fn luma(c: Rgb) -> int {
    ((c.0 as int) * 299 + (c.1 as int) * 587 + (c.2 as int) * 114) / 1000
}

/// The brightness is below 0.20 (of 255).
pub open spec fn too_dark(c: Rgb) -> bool {
    luma(c) < 51
}

/// The brightness is above 0.75 (of 255).
pub open spec fn too_light(c: Rgb) -> bool {
    luma(c) > 191
}

proof fn lemma_step_bounds(x: u8)
    ensures
        0 <= cube_step(x) <= 5,
{
    assert(0 <= (x as int) * 6 / 256 <= 5) by (nonlinear_arith)
        requires
            0 <= x <= 255,
    ;
}

/// Every colour maps into the cube part of the palette, 16 to 231.
pub proof fn lemma_indexed_in_cube(c: Rgb)
    ensures
        16 <= indexed(c) <= 231,
{
    lemma_step_bounds(c.0);
    lemma_step_bounds(c.1);
    lemma_step_bounds(c.2);
}

/// Raising one channel, the others held, never lowers the brightness.
pub proof fn lemma_luma_monotone(c: Rgb, x: u8)
    ensures
        x >= c.0 ==> luma(Rgb(x, c.1, c.2)) >= luma(c),
        x >= c.1 ==> luma(Rgb(c.0, x, c.2)) >= luma(c),
        x >= c.2 ==> luma(Rgb(c.0, c.1, x)) >= luma(c),
{
    let r = c.0 as int;
    let g = c.1 as int;
    let b = c.2 as int;
    let y = x as int;
    assert(y >= r ==> (y * 299 + g * 587 + b * 114) / 1000 >= (r * 299 + g * 587 + b * 114) / 1000)
        by (nonlinear_arith)
        requires
            r >= 0 && g >= 0 && b >= 0,
    ;
    assert(y >= g ==> (r * 299 + y * 587 + b * 114) / 1000 >= (r * 299 + g * 587 + b * 114) / 1000)
        by (nonlinear_arith)
        requires
            r >= 0 && g >= 0 && b >= 0,
    ;
    assert(y >= b ==> (r * 299 + g * 587 + y * 114) / 1000 >= (r * 299 + g * 587 + b * 114) / 1000)
        by (nonlinear_arith)
        requires
            r >= 0 && g >= 0 && b >= 0,
    ;
}

/// The 256-colour palette index of `c`.
pub fn rgbto8(c: &Rgb) -> (r: u8)
    ensures
        r as int == indexed(*c),
        16 <= r <= 231,
{
    proof {
        lemma_indexed_in_cube(*c);
    }
    let r = (c.0 as u16) * 6 / 256;
    let g = (c.1 as u16) * 6 / 256;
    let b = (c.2 as u16) * 6 / 256;
    (16 + r * 36 + g * 6 + b) as u8
}

/// Brightness of `c`: the truncated luma, to be read as a fraction of 255.
pub fn brightness(c: &Rgb) -> (r: u8)
    ensures
        r as int == luma(*c),
{
    let s: u32 = (c.0 as u32) * 299 + (c.1 as u32) * 587 + (c.2 as u32) * 114;
    assert(s / 1000 <= 255);
    (s / 1000) as u8
}

} // verus!

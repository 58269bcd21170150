//! Fixed-point color math: channels are bytes, hue is in tenths of a degree
//! and whiteness, blackness and mixing fractions are in permille.
use vstd::prelude::*;

verus! {

/// An RGB color as red, green and blue bytes.
pub type RgbBytes = [u8; 3];

/// A color as (hue in tenths of a degree, whiteness, blackness in permille).
pub type Hwb = (u32, u16, u16);

/// The three channels that a packed `0xRRGGBB` value holds; higher bits are ignored.
pub open spec fn unpacked(v: u32) -> Seq<u8> {
    seq![(v / 0x10000 % 0x100) as u8, (v / 0x100 % 0x100) as u8, (v % 0x100) as u8]
}

/// The six-sector color wheel: which of the top, ramp and bottom levels
/// go to red, green and blue in each sector.
pub open spec fn wheel(sector: int, top: u8, ramp: u8, bottom: u8) -> Seq<u8> {
    if sector == 0 {
        seq![top, ramp, bottom]
    } else if sector == 1 {
        seq![ramp, top, bottom]
    } else if sector == 2 {
        seq![bottom, top, ramp]
    } else if sector == 3 {
        seq![bottom, ramp, top]
    } else if sector == 4 {
        seq![ramp, bottom, top]
    } else {
        seq![top, bottom, ramp]
    }
}

/// The fully saturated, fully bright color at `hue`: the ramp climbs within
/// even sectors and falls within odd ones.
pub open spec fn hue_rgb(hue: u32) -> Seq<u8> {
    let sector = (hue / 600) % 6;
    let ramp = (hue % 600) * 255 / 600;
    let level = if sector % 2 == 0 { ramp } else { 255 - ramp };
    wheel(sector as int, 255, level as u8, 0)
}

/// The byte that a permille intensity scales to.
pub open spec fn gray_level(value: int) -> int {
    255 * value / 1000
}

/// The channel `p` permille of the way from `a` towards `b`.
pub open spec fn mix_level(p: int, a: int, b: int) -> int {
    (a * 1000 + (b - a) * p) / 1000
}

/// The RGB color of `(hue, whiteness, blackness)`. Where whiteness and
/// blackness reach 1000 together the color is the gray of whiteness's share;
/// otherwise the ramp of the hue's sector runs between the whiteness byte and
/// the top level that blackness leaves.
pub open spec fn hwb_rgb(hue: u32, whiteness: u16, blackness: u16) -> Seq<u8> {
    let total = whiteness + blackness;
    if total >= 1000 {
        let g = gray_level(1000 * whiteness / total) as u8;
        seq![g, g, g]
    } else {
        let w = gray_level(whiteness as int);
        let top = 255 - gray_level(blackness as int);
        let h = hue / 600;
        let ramp = (hue % 600) * 1000 / 600;
        let x = if h % 2 == 1 { 1000 - ramp } else { ramp };
        let mid = w + x * (top - w) / 1000;
        wheel((h % 6) as int, top as u8, mid as u8, w as u8)
    }
}

/// The smallest channel.
pub open spec fn min3(c: Seq<u8>) -> u8 {
    if c[0] <= c[1] && c[0] <= c[2] {
        c[0]
    } else if c[1] <= c[2] {
        c[1]
    } else {
        c[2]
    }
}

/// The largest channel.
pub open spec fn max3(c: Seq<u8>) -> u8 {
    if c[0] >= c[1] && c[0] >= c[2] {
        c[0]
    } else if c[1] >= c[2] {
        c[1]
    } else {
        c[2]
    }
}

/// Division that rounds toward zero, for a positive divisor.
pub open spec fn div_toward_zero(a: int, d: int) -> int {
    if a >= 0 {
        a / d
    } else {
        -((-a) / d)
    }
}

/// The hue of a color in tenths of a degree, 0 for a gray. The channel that
/// holds the maximum picks the sector offset and the difference of the other
/// two; both that difference and the chroma are scaled by 1000/256.
pub open spec fn hue_of(c: Seq<u8>) -> int {
    let hi = max3(c);
    let lo = min3(c);
    if hi == lo {
        0
    } else {
        let diff = if c[0] == hi {
            c[1] - c[2]
        } else if c[1] == hi {
            c[2] - c[0]
        } else {
            c[0] - c[1]
        };
        let base = if c[0] == hi {
            0int
        } else if c[1] == hi {
            1200int
        } else {
            2400int
        };
        let f = div_toward_zero(diff * 1000, 256);
        let d = (hi - lo) * 1000 / 256;
        (base + div_toward_zero(600 * f, d) + 3600) % 3600
    }
}

/// The whiteness of a color in permille, from its smallest channel.
pub open spec fn whiteness_of(c: Seq<u8>) -> int {
    min3(c) * 1000 / 255
}

/// The blackness of a color in permille, from how far its largest channel falls short of 255.
pub open spec fn blackness_of(c: Seq<u8>) -> int {
    (255 - max3(c)) * 1000 / 255
}

/// Splits a packed `0xRRGGBB` value into its three channel bytes.
pub fn rgb(v: u32) -> (r: RgbBytes)
    ensures
        r@ == unpacked(v),
{
    let red = ((v & 0xff0000) >> 16) as u8;
    let green = ((v & 0xff00) >> 8) as u8;
    let blue = (v & 0xff) as u8;
    assert(((v & 0xff0000) >> 16) == v / 0x10000 % 0x100) by (bit_vector);
    assert(((v & 0xff00) >> 8) == v / 0x100 % 0x100) by (bit_vector);
    assert((v & 0xff) == v % 0x100) by (bit_vector);
    let r = [red, green, blue];
    assert(r@ =~= unpacked(v));
    r
}

/// Places the three levels on the channels as sector `sector` of the wheel asks.
fn wheel_rgb(sector: u32, top: u8, ramp: u8, bottom: u8) -> (r: RgbBytes)
    requires
        sector < 6,
    ensures
        r@ == wheel(sector as int, top, ramp, bottom),
{
    let r = if sector == 0 {
        [top, ramp, bottom]
    } else if sector == 1 {
        [ramp, top, bottom]
    } else if sector == 2 {
        [bottom, top, ramp]
    } else if sector == 3 {
        [bottom, ramp, top]
    } else if sector == 4 {
        [ramp, bottom, top]
    } else {
        [top, bottom, ramp]
    };
    assert(r@ =~= wheel(sector as int, top, ramp, bottom));
    r
}

/// The smallest of the three channels.
fn min(c: RgbBytes) -> (r: u8)
    ensures
        r == min3(c@),
{
    if c[0] <= c[1] && c[0] <= c[2] {
        c[0]
    } else if c[1] <= c[2] {
        c[1]
    } else {
        c[2]
    }
}

/// The largest of the three channels.
fn max(c: RgbBytes) -> (r: u8)
    ensures
        r == max3(c@),
{
    if c[0] >= c[1] && c[0] >= c[2] {
        c[0]
    } else if c[1] >= c[2] {
        c[1]
    } else {
        c[2]
    }
}

/// The fully saturated, fully bright color at `hue` (tenths of a degree).
pub fn hue_to_rgb(hue: u32) -> (r: RgbBytes)
    ensures
        r@ == hue_rgb(hue),
{
    let sector = (hue / 600) % 6;
    let x = (hue % 600 * 255 / 600) as u8;
    let level = if sector % 2 == 0 { x } else { 255 - x };
    wheel_rgb(sector, 255, level, 0)
}

/// The hue of a color in tenths of a degree, in `[0, 3600)`; 0 for a gray.
/// It is the hue that [`rgb_to_hwb`] gives.
pub fn rgb_to_hue(c: RgbBytes) -> (r: u16)
    ensures
        r == hue_of(c@),
        0 <= hue_of(c@) < 3600,
{
    hue_value(c) as u16
}

/// A gray whose channels are `value` permille of full intensity.
pub fn gray(value: u16) -> (r: RgbBytes)
    requires
        value <= 1000,
    ensures
        r@ == seq![gray_level(value as int) as u8, gray_level(value as int) as u8, gray_level(value as int) as u8],
        0 <= gray_level(value as int) <= 255,
{
    let level = (255 * value as u32 / 1000) as u8;
    let r = [level, level, level];
    assert(r@ =~= seq![level, level, level]);
    r
}

/// One channel `p` permille of the way from `a` towards `b`.
fn mix_channel(p: u16, a: u8, b: u8) -> (r: u8)
    requires
        p <= 1000,
    ensures
        r == mix_level(p as int, a as int, b as int),
{
    let p32 = p as u32;
    assert(a * (1000 - p32) <= 255 * (1000 - p32) && b * p32 <= 255 * p32) by (nonlinear_arith)
        requires
            a <= 255,
            b <= 255,
            p32 <= 1000,
    ;
    let sum = a as u32 * (1000 - p32) + b as u32 * p32;
    assert(sum == a * 1000 + (b - a) * p) by (nonlinear_arith)
        requires
            sum == a * (1000 - p32) + b * p32,
            p32 == p,
    ;
    assert(0 <= sum <= 255 * 1000) by (nonlinear_arith)
        requires
            sum == a * (1000 - p32) + b * p32,
            p32 <= 1000,
            a <= 255,
            b <= 255,
    ;
    (sum / 1000) as u8
}

/// Blends `a` towards `b` by `p` permille, channel by channel.
pub fn mix(p: u16, a: RgbBytes, b: RgbBytes) -> (r: RgbBytes)
    requires
        p <= 1000,
    ensures
        forall|i: int| 0 <= i < 3 ==> r@[i] == mix_level(p as int, a@[i] as int, b@[i] as int),
{
    let r = [mix_channel(p, a[0], b[0]), mix_channel(p, a[1], b[1]), mix_channel(p, a[2], b[2])];
    r
}

/// The hue of a color in tenths of a degree, in `[0, 3600)`.
fn hue_value(c: RgbBytes) -> (r: u32)
    ensures
        r == hue_of(c@),
        r < 3600,
{
    let hi = max(c);
    let lo = min(c);
    if hi == lo {
        return 0;
    }
    let (neg, mag, base): (bool, u8, u32) = if c[0] == hi {
        if c[1] >= c[2] { (false, c[1] - c[2], 0) } else { (true, c[2] - c[1], 0) }
    } else if c[1] == hi {
        if c[2] >= c[0] { (false, c[2] - c[0], 1200) } else { (true, c[0] - c[2], 1200) }
    } else {
        if c[0] >= c[1] { (false, c[0] - c[1], 2400) } else { (true, c[1] - c[0], 2400) }
    };
    let f = mag as u32 * 1000 / 256;
    let d = (hi - lo) as u32 * 1000 / 256;
    assert(f <= d) by (nonlinear_arith)
        requires
            mag <= hi - lo,
            f == mag * 1000 / 256,
            d == (hi - lo) * 1000 / 256,
    ;
    let q = 600 * f / d;
    assert(q <= 600) by (nonlinear_arith)
        requires
            f <= d,
            d > 0,
            q == (600 * f) / (d as int),
    ;
    let ghost diff: int = if neg { -(mag as int) } else { mag as int };
    assert(div_toward_zero(diff * 1000, 256) == if neg { -(f as int) } else { f as int });
    assert(div_toward_zero(600 * (if neg { -(f as int) } else { f as int }), d as int)
        == if neg { -(q as int) } else { q as int });
    if neg {
        (base + 3600 - q) % 3600
    } else {
        (base + 3600 + q) % 3600
    }
}

/// The RGB color of `(hue, whiteness, blackness)`.
pub fn hwb_to_rgb(hwb: Hwb) -> (r: RgbBytes)
    ensures
        r@ == hwb_rgb(hwb.0, hwb.1, hwb.2),
{
    let white = hwb.1 as u32;
    let black = hwb.2 as u32;
    let total = white + black;
    if total >= 1000 {
        assert((1000 * white) / (total as int) <= 1000) by (nonlinear_arith)
            requires
                white <= total,
                total > 0,
        ;
        return gray((1000 * white / total) as u16);
    }
    let hue = hwb.0;
    let w = (255 * white / 1000) as u8;
    let b = (255 * black / 1000) as u8;
    assert(w + b <= 254) by (nonlinear_arith)
        requires
            w == 255 * white / 1000,
            b == 255 * black / 1000,
            white + black <= 999,
    ;
    let top = 255 - b;
    let h = hue / 600;
    let mut x = hue % 600 * 1000 / 600;
    if h % 2 == 1 {
        x = 1000 - x;
    }
    let span = (top - w) as u32;
    assert(x * span <= 1000 * 255) by (nonlinear_arith)
        requires
            x <= 1000,
            span <= 255,
    ;
    let step = x * span / 1000;
    assert(step <= span) by (nonlinear_arith)
        requires
            x <= 1000,
            step == x * span / 1000,
    ;
    let mid = w + step as u8;
    wheel_rgb(h % 6, top, mid, w)
}

/// The `(hue, whiteness, blackness)` of a color: whiteness from the smallest
/// channel, blackness from the largest, hue as [`rgb_to_hue`] gives it.
pub fn rgb_to_hwb(c: RgbBytes) -> (r: Hwb)
    ensures
        r.0 == hue_of(c@),
        r.1 == whiteness_of(c@),
        r.2 == blackness_of(c@),
{
    let lo = min(c);
    let hi = max(c);
    let hue = hue_value(c);
    (hue, (lo as u32 * 1000 / 255) as u16, ((255 - hi) as u32 * 1000 / 255) as u16)
}

/// Scaling a byte to permille and back, truncating both times, loses at most one.
proof fn lemma_permille_and_back(c: int)
    requires
        0 <= c <= 255,
    ensures
        c - 1 <= gray_level(c * 1000 / 255) <= c,
        255 * (c * 1000 / 255) <= c * 1000,
{
}

/// A gray converted to HWB and back comes out with each channel within one
/// of where it started.
pub proof fn lemma_gray_round_trip(c: RgbBytes)
    requires
        c[0] == c[1] && c[1] == c[2],
    ensures
        forall|i: int|
            0 <= i < 3 ==> -1 <= #[trigger] hwb_rgb(
                hue_of(c@) as u32,
                whiteness_of(c@) as u16,
                blackness_of(c@) as u16,
            )[i] - c[0] <= 1,
{
    let v = c[0] as int;
    assert(c@[0] == v && c@[1] == v && c@[2] == v);
    assert(min3(c@) == v && max3(c@) == v);
    assert(hue_of(c@) == 0);
    lemma_permille_and_back(v);
    lemma_permille_and_back(255 - v);
    let white = whiteness_of(c@);
    let black = blackness_of(c@);
    assert(white + black <= 1000);
    let out = hwb_rgb(0, white as u16, black as u16);
    if white + black >= 1000 {
        assert(1000 * white / (white + black) == white);
        assert(out == seq![gray_level(white) as u8, gray_level(white) as u8, gray_level(white) as u8]);
    } else {
        let w = gray_level(white);
        let top = 255 - gray_level(black);
        assert(0 * (top - w) / 1000 == 0) by (nonlinear_arith);
        assert(out == wheel(0, top as u8, w as u8, w as u8));
    }
}

} // verus!

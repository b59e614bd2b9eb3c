//! Properties of screen rendering that span several pixels, phases or options.
use vstd::prelude::*;
use vstd::arithmetic::div_mod::lemma_fundamental_div_mod_converse;
use crate::screen::{
    Palette, RenderOpts, Rgba, ScreenView, border_colour, cell_flash, colour_count, colour_index,
    count_below, dominant_colour, eff_scale, is_dominant, mono_attrs, nth_colour, out_byte, out_w,
    out_h, palette_list, pixel_on, plain_colour, plain_w, plain_h, rendered, rgba_byte,
};

verus! {

/// Row-major layout of a render: the four bytes of image pixel (xx, yy) are the
/// colour of the bordered-screen point (xx / zoom, yy / zoom) followed by an
/// opaque alpha, so every screen point becomes a zoom x zoom block.
pub proof fn lemma_pixel_at(s: ScreenView, opts: RenderOpts, flash_on: bool, xx: int, yy: int, ch: int)
    requires
        0 <= xx < out_w(opts),
        0 <= yy < out_h(opts),
        0 <= ch < 4,
    ensures
        out_byte(s, opts, flash_on, (yy * out_w(opts) + xx) * 4 + ch) == rgba_byte(
            plain_colour(s, opts, flash_on, xx / eff_scale(opts), yy / eff_scale(opts)),
            ch,
        ),
{
    let w = out_w(opts);
    let p = yy * w + xx;
    lemma_fundamental_div_mod_converse(p * 4 + ch, 4, p, ch);
    lemma_fundamental_div_mod_converse(p, w, yy, xx);
}

/// A cell without the FLASH attribute looks the same in both flash phases.
pub proof fn lemma_steady_cell(s: ScreenView, opts: RenderOpts, x: int, y: int)
    requires
        !cell_flash(s, opts, x, y),
    ensures
        colour_index(s, opts, true, x, y) == colour_index(s, opts, false, x, y),
{
}

/// In its on phase a flashing cell looks exactly as it would, in the off
/// phase, with ink and paper inverted.
pub proof fn lemma_flash_is_inversion(s: ScreenView, opts: RenderOpts, x: int, y: int)
    requires
        cell_flash(s, opts, x, y),
    ensures
        colour_index(s, opts, true, x, y) == colour_index(
            s,
            RenderOpts { invert: !opts.invert, ..opts },
            false,
            x,
            y,
        ),
{
}

/// A bitmap-only screen, rendered with its own attributes, is white ink on
/// black paper: palette index 7 for a set pixel and 0 for a clear one.
pub proof fn lemma_bitmap_only_white_on_black(s: ScreenView, opts: RenderOpts, flash_on: bool, x: int, y: int)
    requires
        s.attrs == mono_attrs(),
        0 <= x < 256,
        0 <= y < 192,
        !opts.mono,
        !opts.invert,
        opts.force_bright is None,
    ensures
        colour_index(s, opts, flash_on, x, y) == if pixel_on(s.bitmap, x, y) {
            7int
        } else {
            0int
        },
{
    assert(7u8 & 7u8 == 7u8) by (bit_vector);
    assert((7u8 >> 3u8) & 7u8 == 0u8) by (bit_vector);
    assert(7u8 & 0x40u8 == 0u8) by (bit_vector);
    assert(7u8 & 0x80u8 == 0u8) by (bit_vector);
    assert(0 <= (y / 8) * 32 + x / 8 < 768);
}

/// Whatever the palette is, a palette index is in range: a colour index is
/// always one of the sixteen entries.
pub proof fn lemma_colour_index_in_range(s: ScreenView, opts: RenderOpts, flash_on: bool, x: int, y: int)
    ensures
        0 <= colour_index(s, opts, flash_on, x, y) < 16,
{
    let a = s.attrs[(y / 8) * 32 + x / 8];
    assert(a & 7u8 < 8u8) by (bit_vector);
    assert((a >> 3u8) & 7u8 < 8u8) by (bit_vector);
}

/// In every bundled palette BRIGHT black is still black.
pub proof fn lemma_bright_black_is_black(i: int)
    requires
        0 <= i < 7,
    ensures
        palette_list()[i][8]@ == seq![0u8, 0u8, 0u8],
{
    let p: Palette = palette_list()[i];
    assert(p[8]@ =~= seq![0u8, 0u8, 0u8]);
}

/// The four bytes of image pixel (x, y) of a render, channel `ch`.
pub open spec fn rgba_at(r: Rgba, x: int, y: int, ch: int) -> u8 {
    r.pixels@[(y * r.width + x) * 4 + ch]
}

/// Pixel (x, y) of a `w` x `h` image lies inside it.
proof fn lemma_index_inside(x: int, y: int, w: int, h: int, ch: int)
    requires
        0 <= x < w,
        0 <= y < h,
        0 <= ch < 4,
    ensures
        0 <= (y * w + x) * 4 + ch < w * h * 4,
{
    assert(0 <= y * w) by (nonlinear_arith)
        requires
            0 <= y,
            0 <= w,
    ;
    assert(y * w + x < w * h) by (nonlinear_arith)
        requires
            0 <= x < w,
            0 <= y < h,
    ;
}

/// Two pixel colourings that agree on every screen pixel count every colour
/// alike over the first `n` pixels.
proof fn lemma_count_below_agree(
    s1: ScreenView,
    o1: RenderOpts,
    f1: bool,
    s2: ScreenView,
    o2: RenderOpts,
    f2: bool,
    c: int,
    n: int,
)
    requires
        0 <= n <= 49152,
        forall|p: int| 0 <= p < 49152 ==> #[trigger] nth_colour(s1, o1, f1, p) == nth_colour(s2, o2, f2, p),
    ensures
        count_below(s1, o1, f1, c, n) == count_below(s2, o2, f2, c, n),
    decreases n,
{
    if n > 0 {
        lemma_count_below_agree(s1, o1, f1, s2, o2, f2, c, n - 1);
        assert(nth_colour(s1, o1, f1, n - 1) == nth_colour(s2, o2, f2, n - 1));
    }
}

/// The last most frequent colour among the indices below `i` (bright black
/// left out).
spec fn best_below(s: ScreenView, o: RenderOpts, f: bool, i: int) -> int
    decreases i,
{
    if i <= 1 {
        0
    } else {
        let b = best_below(s, o, f, i - 1);
        if i - 1 != 8 && colour_count(s, o, f, i - 1) >= colour_count(s, o, f, b) {
            i - 1
        } else {
            b
        }
    }
}

/// [`best_below`] is the last most frequent colour among the indices below `i`.
proof fn lemma_best_below(s: ScreenView, o: RenderOpts, f: bool, i: int)
    requires
        1 <= i <= 16,
    ensures
        0 <= best_below(s, o, f, i) < i,
        best_below(s, o, f, i) != 8,
        forall|j: int| 0 <= j < i && j != 8 ==> #[trigger] colour_count(s, o, f, j) <= colour_count(s, o, f, best_below(s, o, f, i)),
        forall|j: int| best_below(s, o, f, i) < j < i && j != 8 ==> #[trigger] colour_count(s, o, f, j) < colour_count(s, o, f, best_below(s, o, f, i)),
    decreases i,
{
    if i > 1 {
        lemma_best_below(s, o, f, i - 1);
    }
}

/// Every screen has its dominant colour.
proof fn lemma_dominant_exists(s: ScreenView, o: RenderOpts, f: bool)
    ensures
        is_dominant(s, o, f, dominant_colour(s, o, f)),
{
    lemma_best_below(s, o, f, 16);
    let b = best_below(s, o, f, 16);
    assert(is_dominant(s, o, f, b));
}

/// Two pixel colourings that agree on every screen pixel have the same
/// dominant colour.
proof fn lemma_dominant_agree(s1: ScreenView, o1: RenderOpts, f1: bool, s2: ScreenView, o2: RenderOpts, f2: bool)
    requires
        forall|p: int| 0 <= p < 49152 ==> #[trigger] nth_colour(s1, o1, f1, p) == nth_colour(s2, o2, f2, p),
    ensures
        dominant_colour(s1, o1, f1) == dominant_colour(s2, o2, f2),
{
    assert forall|c: int| #[trigger] colour_count(s1, o1, f1, c) == colour_count(s2, o2, f2, c) by {
        lemma_count_below_agree(s1, o1, f1, s2, o2, f2, c, 49152);
    }
    assert forall|b: int| #[trigger] is_dominant(s1, o1, f1, b) implies is_dominant(s2, o2, f2, b) by {
        assert forall|j: int| 0 <= j < 16 && j != 8 implies #[trigger] colour_count(s2, o2, f2, j)
            <= colour_count(s2, o2, f2, b) by {
            assert(colour_count(s1, o1, f1, j) <= colour_count(s1, o1, f1, b));
        }
        assert forall|j: int| b < j < 16 && j != 8 implies #[trigger] colour_count(s2, o2, f2, j)
            < colour_count(s2, o2, f2, b) by {
            assert(colour_count(s1, o1, f1, j) < colour_count(s1, o1, f1, b));
        }
    }
    assert forall|b: int| #[trigger] is_dominant(s2, o2, f2, b) implies is_dominant(s1, o1, f1, b) by {
        assert forall|j: int| 0 <= j < 16 && j != 8 implies #[trigger] colour_count(s1, o1, f1, j)
            <= colour_count(s1, o1, f1, b) by {
            assert(colour_count(s2, o2, f2, j) <= colour_count(s2, o2, f2, b));
        }
        assert forall|j: int| b < j < 16 && j != 8 implies #[trigger] colour_count(s1, o1, f1, j)
            < colour_count(s1, o1, f1, b) by {
            assert(colour_count(s2, o2, f2, j) < colour_count(s2, o2, f2, b));
        }
    }
    lemma_dominant_exists(s1, o1, f1);
    lemma_dominant_exists(s2, o2, f2);
    crate::screen::lemma_dominant_unique(s2, o2, f2, dominant_colour(s1, o1, f1), dominant_colour(s2, o2, f2));
}

/// Every screen pixel (x, y) is the pixel `y * 256 + x` of reading order.
proof fn lemma_nth_is_at(s: ScreenView, opts: RenderOpts, flash_on: bool, p: int)
    requires
        0 <= p < 49152,
    ensures
        0 <= p % 256 < 256,
        0 <= p / 256 < 192,
        nth_colour(s, opts, flash_on, p) == colour_index(s, opts, flash_on, p % 256, p / 256),
{
}

/// A screen with no FLASH cell renders the same in both flash phases: same
/// size, same border colour, same pixels.
pub proof fn lemma_no_flash_phases_alike(s: ScreenView, opts: RenderOpts, on: Rgba, off: Rgba)
    requires
        s.attrs.len() == 768,
        !(exists|i: int| 0 <= i < s.attrs.len() && #[trigger] s.attrs[i] & 0x80u8 != 0u8),
        rendered(s, opts, true, on),
        rendered(s, opts, false, off),
    ensures
        on.width == off.width,
        on.height == off.height,
        on.border == off.border,
        on.pixels@ == off.pixels@,
{
    assert forall|x: int, y: int| 0 <= x < 256 && 0 <= y < 192 implies #[trigger] colour_index(
        s,
        opts,
        true,
        x,
        y,
    ) == colour_index(s, opts, false, x, y) by {
        let i = (y / 8) * 32 + x / 8;
        assert(0 <= i < 768);
        assert(!(s.attrs[i] & 0x80u8 != 0u8));
        lemma_steady_cell(s, opts, x, y);
    }
    assert forall|p: int| 0 <= p < 49152 implies #[trigger] nth_colour(s, opts, true, p) == nth_colour(
        s,
        opts,
        false,
        p,
    ) by {
        lemma_nth_is_at(s, opts, true, p);
        lemma_nth_is_at(s, opts, false, p);
    }
    lemma_dominant_agree(s, opts, true, s, opts, false);
    assert forall|k: int| 0 <= k < on.pixels@.len() implies #[trigger] on.pixels@[k] == off.pixels@[k] by {
        assert(on.pixels@[k] == out_byte(s, opts, true, k));
        assert(off.pixels@[k] == out_byte(s, opts, false, k));
    }
    assert(on.pixels@ =~= off.pixels@);
}

/// Zooming is nearest-neighbour: a render at zoom `k` (1..8) is `k` times as
/// wide and as high as the render at zoom 1, has the same border colour, and
/// its pixel (x, y) is pixel (x / k, y / k) of the render at zoom 1.
pub proof fn lemma_zoom_is_nearest_neighbour(
    s: ScreenView,
    opts: RenderOpts,
    flash_on: bool,
    k: u32,
    r1: Rgba,
    rk: Rgba,
)
    requires
        1 <= k <= 8,
        rendered(s, RenderOpts { scale: 1, ..opts }, flash_on, r1),
        rendered(s, RenderOpts { scale: k, ..opts }, flash_on, rk),
    ensures
        rk.width == r1.width * k,
        rk.height == r1.height * k,
        rk.border == r1.border,
        forall|x: int, y: int, ch: int|
            0 <= x < rk.width && 0 <= y < rk.height && 0 <= ch < 4 ==> #[trigger] rgba_at(rk, x, y, ch)
                == rgba_at(r1, x / (k as int), y / (k as int), ch),
{
    let o1 = RenderOpts { scale: 1, ..opts };
    let ok = RenderOpts { scale: k, ..opts };
    assert forall|p: int| 0 <= p < 49152 implies #[trigger] nth_colour(s, o1, flash_on, p) == nth_colour(
        s,
        ok,
        flash_on,
        p,
    ) by {}
    lemma_dominant_agree(s, o1, flash_on, s, ok, flash_on);
    assert(border_colour(s, o1, flash_on) == border_colour(s, ok, flash_on));
    let kk = k as int;
    assert(eff_scale(ok) == kk);
    assert(eff_scale(o1) == 1);
    assert(plain_w(ok) == plain_w(o1));
    assert(plain_h(ok) == plain_h(o1));
    let pw = plain_w(o1);
    let ph = plain_h(o1);
    assert(pw * 1 == pw && ph * 1 == ph) by (nonlinear_arith);
    assert(out_w(o1) == pw);
    assert(out_h(o1) == ph);
    assert(out_w(ok) == pw * kk);
    assert(out_h(ok) == ph * kk);
    assert forall|x: int, y: int, ch: int|
        0 <= x < rk.width && 0 <= y < rk.height && 0 <= ch < 4 implies #[trigger] rgba_at(rk, x, y, ch)
        == rgba_at(r1, x / kk, y / kk, ch) by {
        let w1 = plain_w(o1);
        let h1 = plain_h(o1);
        assert(x / kk < w1) by (nonlinear_arith)
            requires
                0 <= x < w1 * kk,
                1 <= kk,
        ;
        assert(y / kk < h1) by (nonlinear_arith)
            requires
                0 <= y < h1 * kk,
                1 <= kk,
        ;
        assert(0 <= x / kk && 0 <= y / kk) by (nonlinear_arith)
            requires
                0 <= x,
                0 <= y,
                1 <= kk,
        ;
        lemma_pixel_at(s, ok, flash_on, x, y, ch);
        lemma_pixel_at(s, o1, flash_on, x / kk, y / kk, ch);
        assert((x / kk) / 1 == x / kk);
        assert((y / kk) / 1 == y / kk);
        assert(plain_colour(s, ok, flash_on, x / kk, y / kk) == plain_colour(s, o1, flash_on, x / kk, y / kk));
        lemma_index_inside(x, y, rk.width as int, rk.height as int, ch);
        lemma_index_inside(x / kk, y / kk, r1.width as int, r1.height as int, ch);
    }
}

/// The set pixel of `b` at bit `sh` is the clear pixel of its complement.
proof fn lemma_complement_bit(b: u8, sh: u8)
    requires
        sh < 8,
    ensures
        ((!b >> sh) & 1u8 == 1u8) == !((b >> sh) & 1u8 == 1u8),
{
    assert(((!b >> sh) & 1u8 == 1u8) == !((b >> sh) & 1u8 == 1u8)) by (bit_vector)
        requires
            sh < 8,
    ;
}

/// Inverting a screen looks exactly like rendering, without inversion, the
/// screen with the same attributes and every bitmap byte complemented: same
/// size, same border colour, same pixels.
pub proof fn lemma_invert_is_complement(
    s: ScreenView,
    t: ScreenView,
    opts: RenderOpts,
    flash_on: bool,
    r: Rgba,
    r2: Rgba,
)
    requires
        s.bitmap.len() == 6144,
        t.bitmap.len() == 6144,
        s.attrs.len() == 768,
        t.attrs == s.attrs,
        forall|j: int| 0 <= j < 6144 ==> #[trigger] t.bitmap[j] == !s.bitmap[j],
        rendered(s, RenderOpts { invert: true, ..opts }, flash_on, r),
        rendered(t, RenderOpts { invert: false, ..opts }, flash_on, r2),
    ensures
        r.width == r2.width,
        r.height == r2.height,
        r.border == r2.border,
        r.pixels@ == r2.pixels@,
{
    let oi = RenderOpts { invert: true, ..opts };
    let on = RenderOpts { invert: false, ..opts };
    assert forall|x: int, y: int| 0 <= x < 256 && 0 <= y < 192 implies #[trigger] colour_index(
        s,
        oi,
        flash_on,
        x,
        y,
    ) == colour_index(t, on, flash_on, x, y) by {
        let off = crate::screen::bitmap_offset(x, y);
        assert(0 <= off < 6144);
        let sh = (7 - x % 8) as u8;
        lemma_complement_bit(s.bitmap[off], sh);
        assert(pixel_on(t.bitmap, x, y) == !pixel_on(s.bitmap, x, y));
    }
    assert forall|p: int| 0 <= p < 49152 implies #[trigger] nth_colour(s, oi, flash_on, p) == nth_colour(
        t,
        on,
        flash_on,
        p,
    ) by {
        lemma_nth_is_at(s, oi, flash_on, p);
        lemma_nth_is_at(t, on, flash_on, p);
    }
    lemma_dominant_agree(s, oi, flash_on, t, on, flash_on);
    assert(border_colour(s, oi, flash_on) == border_colour(t, on, flash_on));
    assert forall|k: int| 0 <= k < r.pixels@.len() implies #[trigger] r.pixels@[k] == r2.pixels@[k] by {
        assert(r.pixels@[k] == out_byte(s, oi, flash_on, k));
        assert(r2.pixels@[k] == out_byte(t, on, flash_on, k));
    }
    assert(r.pixels@ =~= r2.pixels@);
}

/// A render is determined by the screen, the options and the flash phase: two
/// renders of the same have the same size, border colour and pixels.
pub proof fn lemma_render_determined(s: ScreenView, opts: RenderOpts, flash_on: bool, r1: Rgba, r2: Rgba)
    requires
        rendered(s, opts, flash_on, r1),
        rendered(s, opts, flash_on, r2),
    ensures
        r1.width == r2.width,
        r1.height == r2.height,
        r1.border == r2.border,
        r1.pixels@ == r2.pixels@,
{
    assert(r1.pixels@ =~= r2.pixels@);
}

} // verus!

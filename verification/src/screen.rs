//! ZX Spectrum screen decoder: turn a raw `.scr`-style screen dump into an RGBA
//! image ready to blit.
//!
//! Two formats, told apart purely by length (the format has no signature):
//!   * **6912 bytes** - full screen: a 6144-byte bitmap + a 768-byte attribute
//!     map (32x24 cells of 8x8 pixels).
//!   * **6144 bytes** - bitmap only, no colour: rendered white ink on a black
//!     paper by default.
//!
//! The 256x192 bitmap is stored in the ZX "thirds" interleave: the byte holding
//! pixel (x, y) is at `(y/64)*2048 + (y%8)*256 + ((y/8)%8)*32 + x/8`, with the
//! most-significant bit the leftmost pixel.
//!
//! An attribute byte is `FLASH(7) BRIGHT(6) PAPER(5..3) INK(2..0)`; the 3-bit
//! colour is `G R B`. FLASH swaps INK and PAPER on a timer; [`Screen::render`]
//! takes the flash phase so the caller can animate it.
//!
//! Colours come from a 16-entry [`Palette`] (0..8 normal, 8..16 bright). Several
//! presets are bundled ([`named_palettes`]), ported from the Xpeccy emulator;
//! the default is [`PAL_PULSAR`].
use vstd::prelude::*;
use crate::text::{chars_eq, normalize, normalized};
use vstd::arithmetic::div_mod::lemma_fundamental_div_mod_converse;

verus! {

/// Screen width in pixels.
pub const SCREEN_W: usize = 256;
/// Screen height in pixels.
pub const SCREEN_H: usize = 192;
/// Length of the bitmap area (6144 bytes).
pub const BITMAP_LEN: usize = 6144;
/// Length of the attribute area (768 bytes).
pub const ATTR_LEN: usize = 768;
/// Length of a full screen with attributes (6912 bytes).
pub const SCREEN_LEN: usize = BITMAP_LEN + ATTR_LEN;
/// Upper bound on the integer zoom [`Screen::render`] will honour.
pub const MAX_SCALE: usize = 8;
/// Upper bound on the border thickness [`Screen::render`] will honour.
pub const MAX_BORDER: usize = 512;

/// One RGB colour.
pub type Rgb = [u8; 3];
/// A ZX palette: entries 0..8 are the normal colours, 8..16 their BRIGHT twins.
pub type Palette = [Rgb; 16];

// Order per entry: Black, Blue, Red, Magenta, Green, Cyan, Yellow, White, then
// the same 8 in BRIGHT. This matches the ZX colour index (bits G R B).

/// Well-known "Pulsar" palette (0xCD / 0xFF). The default.
pub const PAL_PULSAR: Palette = [
    [0, 0, 0], [0, 0, 205], [205, 0, 0], [205, 0, 205],
    [0, 205, 0], [0, 205, 205], [205, 205, 0], [205, 205, 205],
    [0, 0, 0], [0, 0, 255], [255, 0, 0], [255, 0, 255],
    [0, 255, 0], [0, 255, 255], [255, 255, 0], [255, 255, 255],
];

/// Wikipedia palette #1.
pub const PAL_WIKI1: Palette = [
    [0, 0, 0], [1, 0, 206], [207, 1, 0], [207, 1, 206],
    [0, 207, 21], [1, 207, 207], [207, 207, 21], [207, 207, 207],
    [0, 0, 0], [2, 0, 253], [255, 2, 1], [255, 2, 253],
    [0, 255, 28], [2, 255, 255], [255, 255, 29], [255, 255, 255],
];

/// Wikipedia palette #2.
pub const PAL_WIKI2: Palette = [
    [0, 0, 0], [0, 29, 200], [216, 36, 15], [213, 48, 201],
    [0, 199, 33], [0, 201, 203], [206, 202, 39], [203, 203, 203],
    [0, 0, 0], [0, 39, 251], [255, 48, 22], [255, 63, 252],
    [0, 249, 44], [0, 252, 254], [255, 253, 51], [255, 255, 255],
];

/// Palette used by the Spectaculator emulator.
pub const PAL_SPECTACULATOR: Palette = [
    [0, 0, 0], [0, 0, 206], [206, 0, 0], [206, 0, 206],
    [0, 203, 0], [0, 203, 206], [206, 203, 0], [206, 203, 206],
    [0, 0, 0], [0, 0, 255], [255, 0, 0], [255, 0, 255],
    [0, 251, 0], [0, 251, 255], [255, 251, 0], [255, 251, 255],
];

/// ATM-Turbo palette (0xAA / 0xFF - matches Xpeccy's built-in default).
pub const PAL_ATM: Palette = [
    [0, 0, 0], [0, 0, 170], [170, 0, 0], [170, 0, 170],
    [0, 170, 0], [0, 170, 170], [170, 170, 0], [170, 170, 170],
    [0, 0, 0], [0, 0, 255], [255, 0, 0], [255, 0, 255],
    [0, 255, 0], [0, 255, 255], [255, 255, 0], [255, 255, 255],
];

/// ZX Spectrum Next FPGA core HDMI palette (0xB0 / 0xFF).
pub const PAL_NEXT: Palette = [
    [0, 0, 0], [0, 0, 176], [176, 0, 0], [176, 0, 176],
    [0, 176, 0], [0, 176, 176], [176, 176, 0], [176, 176, 176],
    [0, 0, 0], [0, 0, 255], [255, 0, 0], [255, 0, 255],
    [0, 255, 0], [0, 255, 255], [255, 255, 0], [255, 255, 255],
];

/// Art palette by Schafft.
pub const PAL_SCHAFFT: Palette = [
    [0, 0, 0], [28, 0, 119], [162, 35, 42], [132, 23, 168],
    [123, 135, 7], [45, 145, 195], [218, 167, 62], [186, 186, 186],
    [0, 0, 0], [33, 0, 165], [224, 44, 53], [183, 27, 232],
    [167, 186, 8], [66, 194, 255], [255, 214, 109], [252, 252, 252],
];

/// The default palette used when none is chosen.
pub fn default_palette() -> (r: &'static Palette)
    ensures
        *r == PAL_PULSAR,
{
    &PAL_PULSAR
}

/// The names of the bundled palettes, in their stable order.
pub open spec fn palette_names() -> Seq<Seq<char>> {
    seq!["pulsar"@, "wiki1"@, "wiki2"@, "spectaculator"@, "atm"@, "next"@, "schafft"@]
}

/// The bundled palettes, in the same order.
pub open spec fn palette_list() -> Seq<Palette> {
    seq![PAL_PULSAR, PAL_WIKI1, PAL_WIKI2, PAL_SPECTACULATOR, PAL_ATM, PAL_NEXT, PAL_SCHAFFT]
}

/// All bundled palettes as `(name, palette)`, in a stable order.
pub fn named_palettes() -> (r: Vec<(&'static str, &'static Palette)>)
    ensures
        r@.len() == 7,
        forall|i: int| 0 <= i < 7 ==> (#[trigger] r@[i]).0@ == palette_names()[i] && *r@[i].1
            == palette_list()[i],
{
    let mut r: Vec<(&'static str, &'static Palette)> = Vec::new();
    r.push(("pulsar", &PAL_PULSAR));
    r.push(("wiki1", &PAL_WIKI1));
    r.push(("wiki2", &PAL_WIKI2));
    r.push(("spectaculator", &PAL_SPECTACULATOR));
    r.push(("atm", &PAL_ATM));
    r.push(("next", &PAL_NEXT));
    r.push(("schafft", &PAL_SCHAFFT));
    r
}

/// Position of the bundled palette named `n`, or -1.
pub open spec fn palette_pos(n: Seq<char>) -> int {
    if n == palette_names()[0] {
        0
    } else if n == palette_names()[1] {
        1
    } else if n == palette_names()[2] {
        2
    } else if n == palette_names()[3] {
        3
    } else if n == palette_names()[4] {
        4
    } else if n == palette_names()[5] {
        5
    } else if n == palette_names()[6] {
        6
    } else {
        -1
    }
}

/// Look up a bundled palette by name (surrounding whitespace and ASCII case
/// ignored).
pub fn palette_by_name(name: &str) -> (r: Option<&'static Palette>)
    ensures
        palette_pos(normalize(name@)) == -1 ==> r is None,
        palette_pos(normalize(name@)) >= 0 ==> (r matches Some(p) && *p == palette_list()[palette_pos(normalize(name@))]),
{
    let n = normalized(name);
    let all = named_palettes();
    let mut i: usize = 0;
    while i < all.len()
        invariant
            i <= 7,
            all@.len() == 7,
            n@ == normalize(name@),
            forall|j: int| 0 <= j < 7 ==> (#[trigger] all@[j]).0@ == palette_names()[j] && *all@[j].1
                == palette_list()[j],
            forall|j: int| 0 <= j < i ==> n@ != palette_names()[j],
        decreases 7 - i,
    {
        let (k, p) = all[i];
        if chars_eq(&n, k) {
            return Some(p);
        }
        i = i + 1;
    }
    None
}

/// Which screen format a byte length corresponds to.
#[derive(Copy, Clone, Debug, PartialEq, Eq, Structural)]
pub enum ScreenFormat {
    /// 6912 bytes: bitmap + attributes.
    WithAttributes,
    /// 6144 bytes: bitmap only (white on black).
    BitmapOnly,
}

/// The format of a screen dump of `len` bytes.
pub open spec fn format_of_len(len: int) -> Option<ScreenFormat> {
    if len == 6912 {
        Some(ScreenFormat::WithAttributes)
    } else if len == 6144 {
        Some(ScreenFormat::BitmapOnly)
    } else {
        None
    }
}

/// Detect the screen format from a byte length alone (the only reliable cue -
/// the format carries no magic). Returns `None` for any other size.
pub fn detect(len: usize) -> (r: Option<ScreenFormat>)
    ensures
        r == format_of_len(len as int),
{
    if len == SCREEN_LEN {
        Some(ScreenFormat::WithAttributes)
    } else if len == BITMAP_LEN {
        Some(ScreenFormat::BitmapOnly)
    } else {
        None
    }
}


/// Rendering options. Defaults: 2x integer scale, 32-pixel black border, the
/// [`PAL_PULSAR`] palette.
#[derive(Copy, Clone, Debug)]
pub struct RenderOpts {
    /// Integer zoom applied to the whole bordered image (nearest-neighbour).
    pub scale: u32,
    /// Border thickness, in source pixels, around the 256x192 screen (scaled too).
    pub border: u32,
    /// Colour palette (0..8 normal, 8..16 bright).
    pub palette: &'static Palette,
    /// Swap ink/paper for every cell. For a bitmap-only (6144) screen this
    /// turns the default white-on-black into black-on-white; on a full screen it
    /// inverts all the attributes.
    pub invert: bool,
    /// Force the BRIGHT bit of every cell (`None` = use the screen's own bits).
    pub force_bright: Option<bool>,
    /// Border fill colour (RGB), used when `border_dominant` is false.
    pub border_rgb: Rgb,
    /// Colour the border with the most frequent pixel colour of the screen
    /// (overrides `border_rgb`). Recomputed each render.
    pub border_dominant: bool,
    /// Ignore the attribute map and render the bitmap as white ink on black
    /// paper (the "attributes off" view; also how a 6144 screen looks).
    pub mono: bool,
}

impl Default for RenderOpts {
    fn default() -> (r: RenderOpts)
        ensures
            r.scale == 2,
            r.border == 32,
            *r.palette == PAL_PULSAR,
            !r.invert,
            r.force_bright is None,
            r.border_rgb@ == seq![0u8, 0u8, 0u8],
            !r.border_dominant,
            !r.mono,
    {
        let r = RenderOpts {
            scale: 2,
            border: 32,
            palette: &PAL_PULSAR,
            invert: false,
            force_bright: None,
            border_rgb: [0, 0, 0],
            border_dominant: false,
            mono: false,
        };
        assert(r.border_rgb@ =~= seq![0u8, 0u8, 0u8]);
        r
    }
}

/// A decoded RGBA image (8 bits/channel, row-major, top-down, opaque).
pub struct Rgba {
    pub width: u32,
    pub height: u32,
    /// `width * height * 4` bytes, in R, G, B, A order.
    pub pixels: Vec<u8>,
    /// The border colour actually used (handy in `border_dominant` mode).
    pub border: Rgb,
}

/// A parsed ZX screen, ready to [`render`](Screen::render) at any flash phase.
pub struct Screen {
    bitmap: Vec<u8>,
    attrs: Vec<u8>,
}

/// The content of a [`Screen`]: its bitmap and its attribute map.
pub ghost struct ScreenView {
    pub bitmap: Seq<u8>,
    pub attrs: Seq<u8>,
}

impl View for Screen {
    type V = ScreenView;

    closed spec fn view(&self) -> ScreenView {
        ScreenView { bitmap: self.bitmap@, attrs: self.attrs@ }
    }
}

/// The attribute map given to a bitmap-only screen: white ink on black paper.
pub open spec fn mono_attrs() -> Seq<u8> {
    Seq::new(768, |i: int| 7u8)
}

/// The screen a dump of `bytes` holds, if its length is one of the two formats.
pub open spec fn screen_of(bytes: Seq<u8>) -> Option<ScreenView> {
    if bytes.len() == 6912 {
        Some(ScreenView { bitmap: bytes.subrange(0, 6144), attrs: bytes.subrange(6144, 6912) })
    } else if bytes.len() == 6144 {
        Some(ScreenView { bitmap: bytes, attrs: mono_attrs() })
    } else {
        None
    }
}

/// Offset in the bitmap of the byte holding pixel (x, y): the "thirds"
/// interleave.
pub open spec fn bitmap_offset(x: int, y: int) -> int {
    (y / 64) * 2048 + (y % 8) * 256 + ((y / 8) % 8) * 32 + x / 8
}

/// Whether pixel (x, y) is set; the most significant bit is the leftmost pixel.
pub open spec fn pixel_on(bitmap: Seq<u8>, x: int, y: int) -> bool {
    (bitmap[bitmap_offset(x, y)] >> ((7 - x % 8) as u8)) & 1u8 == 1u8
}

/// The attribute byte of the 8x8 cell holding pixel (x, y).
pub open spec fn attr_at(attrs: Seq<u8>, x: int, y: int) -> u8 {
    attrs[(y / 8) * 32 + x / 8]
}

/// The ink colour (0..8) of the cell holding (x, y); white in mono mode.
pub open spec fn cell_ink(s: ScreenView, opts: RenderOpts, x: int, y: int) -> u8 {
    if opts.mono {
        7u8
    } else {
        attr_at(s.attrs, x, y) & 7u8
    }
}

/// The paper colour (0..8) of the cell holding (x, y); black in mono mode.
pub open spec fn cell_paper(s: ScreenView, opts: RenderOpts, x: int, y: int) -> u8 {
    if opts.mono {
        0u8
    } else {
        (attr_at(s.attrs, x, y) >> 3u8) & 7u8
    }
}

/// Whether the cell holding (x, y) is drawn BRIGHT.
pub open spec fn cell_bright(s: ScreenView, opts: RenderOpts, x: int, y: int) -> bool {
    match opts.force_bright {
        Some(b) => b,
        None => if opts.mono {
            true
        } else {
            attr_at(s.attrs, x, y) & 0x40u8 != 0u8
        },
    }
}

/// Whether the cell holding (x, y) flashes (never in mono mode).
pub open spec fn cell_flash(s: ScreenView, opts: RenderOpts, x: int, y: int) -> bool {
    !opts.mono && attr_at(s.attrs, x, y) & 0x80u8 != 0u8
}

/// Palette index (0..16) of screen pixel (x, y): a set pixel shows the ink and
/// a clear one the paper, each swap (`invert`, then FLASH in its on phase)
/// exchanging the two, and BRIGHT selects the upper half of the palette.
pub open spec fn colour_index(s: ScreenView, opts: RenderOpts, flash_on: bool, x: int, y: int) -> int {
    let swapped = opts.invert != (cell_flash(s, opts, x, y) && flash_on);
    let shown = if pixel_on(s.bitmap, x, y) != swapped {
        cell_ink(s, opts, x, y)
    } else {
        cell_paper(s, opts, x, y)
    };
    shown + if cell_bright(s, opts, x, y) {
        8int
    } else {
        0int
    }
}

/// Palette index of the `p`-th screen pixel in reading order (row by row).
pub open spec fn nth_colour(s: ScreenView, opts: RenderOpts, flash_on: bool, p: int) -> int {
    colour_index(s, opts, flash_on, p % 256, p / 256)
}

/// The colour a palette index stands for when colours are counted: bright
/// black is black, every other index a colour of its own.
pub open spec fn colour_class(c: int) -> int {
    if c == 8 {
        0
    } else {
        c
    }
}

/// How many of the first `n` screen pixels (reading order) show colour `c`
/// (bright black counted as black).
pub open spec fn count_below(s: ScreenView, opts: RenderOpts, flash_on: bool, c: int, n: int) -> nat
    decreases n,
{
    if n <= 0 {
        0
    } else {
        count_below(s, opts, flash_on, c, n - 1) + if colour_class(nth_colour(s, opts, flash_on, n - 1)) == c {
            1nat
        } else {
            0nat
        }
    }
}

/// How many of the 256x192 screen pixels show colour `c`.
pub open spec fn colour_count(s: ScreenView, opts: RenderOpts, flash_on: bool, c: int) -> nat {
    count_below(s, opts, flash_on, c, 49152)
}

/// `b` is the most frequent pixel colour of the screen (bright black counted
/// as black, so `b` is never the bright-black index), the last one among
/// equally frequent colours.
pub open spec fn is_dominant(s: ScreenView, opts: RenderOpts, flash_on: bool, b: int) -> bool {
    &&& 0 <= b < 16
    &&& b != 8
    &&& forall|j: int| 0 <= j < 16 && j != 8 ==> colour_count(s, opts, flash_on, j) <= colour_count(s, opts, flash_on, b)
    &&& forall|j: int| b < j < 16 && j != 8 ==> colour_count(s, opts, flash_on, j) < colour_count(s, opts, flash_on, b)
}

/// The palette index of the most frequent pixel colour (the last among ties).
pub open spec fn dominant_colour(s: ScreenView, opts: RenderOpts, flash_on: bool) -> int {
    choose|b: int| is_dominant(s, opts, flash_on, b)
}

/// The border colour of a render: the dominant screen colour, or the fixed one.
pub open spec fn border_colour(s: ScreenView, opts: RenderOpts, flash_on: bool) -> Rgb {
    if opts.border_dominant {
        opts.palette@[dominant_colour(s, opts, flash_on)]
    } else {
        opts.border_rgb
    }
}

/// The zoom actually used: `scale` clamped to 1..=8.
pub open spec fn eff_scale(opts: RenderOpts) -> int {
    if opts.scale < 1 {
        1
    } else if opts.scale > 8 {
        8
    } else {
        opts.scale as int
    }
}

/// The border thickness actually used: `border` clamped to at most 512.
pub open spec fn eff_border(opts: RenderOpts) -> int {
    if opts.border > 512 {
        512
    } else {
        opts.border as int
    }
}

/// Width of the bordered screen before zooming.
pub open spec fn plain_w(opts: RenderOpts) -> int {
    256 + 2 * eff_border(opts)
}

/// Height of the bordered screen before zooming.
pub open spec fn plain_h(opts: RenderOpts) -> int {
    192 + 2 * eff_border(opts)
}

/// Width of the rendered image.
pub open spec fn out_w(opts: RenderOpts) -> int {
    plain_w(opts) * eff_scale(opts)
}

/// Height of the rendered image.
pub open spec fn out_h(opts: RenderOpts) -> int {
    plain_h(opts) * eff_scale(opts)
}

/// Colour of point (px, py) of the bordered screen before zooming: the screen
/// pixel's palette colour inside, the border colour around it.
pub open spec fn plain_colour(s: ScreenView, opts: RenderOpts, flash_on: bool, px: int, py: int) -> Rgb {
    let bp = eff_border(opts);
    if bp <= px < bp + 256 && bp <= py < bp + 192 {
        opts.palette@[colour_index(s, opts, flash_on, px - bp, py - bp)]
    } else {
        border_colour(s, opts, flash_on)
    }
}

/// Channel `ch` (R, G, B, then an opaque A) of colour `c`.
pub open spec fn rgba_byte(c: Rgb, ch: int) -> u8 {
    if ch < 3 {
        c@[ch]
    } else {
        255u8
    }
}

/// Byte `k` of a render: pixel `k / 4` in row-major order, each zoomed pixel
/// taking the colour of the bordered-screen point it covers.
pub open spec fn out_byte(s: ScreenView, opts: RenderOpts, flash_on: bool, k: int) -> u8 {
    let p = k / 4;
    let w = out_w(opts);
    let z = eff_scale(opts);
    rgba_byte(plain_colour(s, opts, flash_on, (p % w) / z, (p / w) / z), k % 4)
}

/// `r` is exactly the render of `s` with `opts` at flash phase `flash_on`: its
/// size, its border colour, and every byte of its pixels.
pub open spec fn rendered(s: ScreenView, opts: RenderOpts, flash_on: bool, r: Rgba) -> bool {
    &&& r.width == out_w(opts)
    &&& r.height == out_h(opts)
    &&& r.pixels@.len() == out_w(opts) * out_h(opts) * 4
    &&& r.border == border_colour(s, opts, flash_on)
    &&& forall|k: int| 0 <= k < r.pixels@.len() ==> r.pixels@[k] == out_byte(s, opts, flash_on, k)
}

/// Two indices that are both the last most frequent one are the same.
pub proof fn lemma_dominant_unique(s: ScreenView, opts: RenderOpts, flash_on: bool, a: int, b: int)
    requires
        is_dominant(s, opts, flash_on, a),
        is_dominant(s, opts, flash_on, b),
    ensures
        a == b,
{
    if a < b {
        assert(colour_count(s, opts, flash_on, b) < colour_count(s, opts, flash_on, a));
    } else if b < a {
        assert(colour_count(s, opts, flash_on, a) < colour_count(s, opts, flash_on, b));
    }
}

impl Screen {
    #[verifier::type_invariant]
    spec fn sized(&self) -> bool {
        self.bitmap@.len() == 6144 && self.attrs@.len() == 768
    }

    /// Parse a raw screen. Accepts 6912 (with attributes) or 6144 (bitmap only,
    /// defaulted to white ink on black paper). Returns `None` for other sizes.
    pub fn parse(bytes: &[u8]) -> (r: Option<Screen>)
        ensures
            r is None <==> screen_of(bytes@) is None,
            r matches Some(s) ==> screen_of(bytes@) == Some(s@),
    {
        let fmt = detect(bytes.len());
        match fmt {
            None => None,
            Some(f) => {
                let mut bitmap: Vec<u8> = Vec::new();
                let mut i: usize = 0;
                while i < BITMAP_LEN
                    invariant
                        i <= 6144,
                        bytes@.len() >= 6144,
                        bitmap@ == bytes@.subrange(0, i as int),
                    decreases 6144 - i,
                {
                    bitmap.push(bytes[i]);
                    i = i + 1;
                    assert(bitmap@ =~= bytes@.subrange(0, i as int));
                }
                let mut attrs: Vec<u8> = Vec::new();
                let mut j: usize = 0;
                while j < ATTR_LEN
                    invariant
                        j <= 768,
                        f == format_of_len(bytes@.len() as int)->0,
                        f == ScreenFormat::WithAttributes ==> bytes@.len() == 6912,
                        f == ScreenFormat::WithAttributes ==> attrs@ == bytes@.subrange(6144, 6144 + j),
                        f == ScreenFormat::BitmapOnly ==> attrs@ == mono_attrs().take(j as int),
                    decreases 768 - j,
                {
                    match f {
                        ScreenFormat::WithAttributes => attrs.push(bytes[BITMAP_LEN + j]),
                        ScreenFormat::BitmapOnly => attrs.push(7u8),
                    }
                    j = j + 1;
                    assert(f == ScreenFormat::WithAttributes ==> attrs@ =~= bytes@.subrange(6144, 6144 + j));
                    assert(f == ScreenFormat::BitmapOnly ==> attrs@ =~= mono_attrs().take(j as int));
                }
                assert(f == ScreenFormat::BitmapOnly ==> attrs@ =~= mono_attrs());
                assert(bytes@.len() == 6144 ==> bitmap@ =~= bytes@);
                Some(Screen { bitmap, attrs })
            },
        }
    }

    /// A copy of the screen.
    pub fn duplicate(&self) -> (r: Screen)
        ensures
            r@ == self@,
            self@.bitmap.len() == 6144,
            self@.attrs.len() == 768,
    {
        proof {
            use_type_invariant(self);
        }
        let bitmap = self.bitmap.clone();
        let attrs = self.attrs.clone();
        assert(bitmap@ =~= self.bitmap@);
        assert(attrs@ =~= self.attrs@);
        Screen { bitmap, attrs }
    }

    /// Whether any cell has the FLASH bit set (so a viewer needs a timer).
    pub fn has_flash(&self) -> (r: bool)
        ensures
            r == exists|i: int| 0 <= i < self@.attrs.len() && #[trigger] self@.attrs[i] & 0x80u8 != 0u8,
    {
        let mut i: usize = 0;
        while i < self.attrs.len()
            invariant
                i <= self@.attrs.len(),
                self@.attrs == self.attrs@,
                forall|j: int| 0 <= j < i ==> #[trigger] self@.attrs[j] & 0x80u8 == 0u8,
            decreases self@.attrs.len() - i,
        {
            if self.attrs[i] & 0x80u8 != 0u8 {
                return true;
            }
            i = i + 1;
        }
        false
    }

    /// Palette index of screen pixel (x, y).
    #[verifier::spinoff_prover]
    fn colour_at(&self, x: usize, y: usize, flash_on: bool, opts: &RenderOpts) -> (c: usize)
        requires
            x < 256,
            y < 192,
        ensures
            c == colour_index(self@, *opts, flash_on, x as int, y as int),
            c < 16,
    {
        proof {
            use_type_invariant(self);
        }
        let off = (y / 64) * 2048 + (y % 8) * 256 + ((y / 8) % 8) * 32 + x / 8;
        assert(off < 6144);
        let sh: u8 = (7 - x % 8) as u8;
        let on = (self.bitmap[off] >> sh) & 1u8 == 1u8;
        let a = self.attrs[(y / 8) * 32 + x / 8];
        let ink: u8 = if opts.mono { 7u8 } else { a & 7u8 };
        let paper: u8 = if opts.mono { 0u8 } else { (a >> 3u8) & 7u8 };
        let bright = match opts.force_bright {
            Some(b) => b,
            None => if opts.mono { true } else { a & 0x40u8 != 0u8 },
        };
        let flash = !opts.mono && a & 0x80u8 != 0u8;
        let swapped = opts.invert != (flash && flash_on);
        let shown = if on != swapped { ink } else { paper };
        assert(a & 7u8 < 8u8) by (bit_vector);
        assert((a >> 3u8) & 7u8 < 8u8) by (bit_vector);
        (shown as usize) + if bright { 8usize } else { 0usize }
    }
    /// The palette index of every screen pixel in reading order, and how
    /// often each colour occurs (bright black counted as black).
    #[verifier::spinoff_prover]
    fn colour_indices(&self, flash_on: bool, opts: &RenderOpts) -> (r: (Vec<u8>, Vec<u32>))
        ensures
            r.0@.len() == 49152,
            forall|q: int| 0 <= q < 49152 ==> r.0@[q] == nth_colour(self@, *opts, flash_on, q),
            forall|q: int| 0 <= q < 49152 ==> r.0@[q] < 16,
            r.1@.len() == 16,
            forall|c: int| 0 <= c < 16 ==> r.1@[c] == colour_count(self@, *opts, flash_on, c),
    {
        let mut counts: Vec<u32> = Vec::new();
        let mut c: usize = 0;
        while c < 16
            invariant
                c <= 16,
                counts@.len() == c,
                forall|j: int| 0 <= j < c ==> counts@[j] == 0,
            decreases 16 - c,
        {
            counts.push(0u32);
            c = c + 1;
        }
        let mut idx: Vec<u8> = Vec::new();
        let mut p: usize = 0;
        while p < 49152
            invariant
                p <= 49152,
                idx@.len() == p,
                forall|q: int| 0 <= q < p ==> idx@[q] == nth_colour(self@, *opts, flash_on, q),
                forall|q: int| 0 <= q < p ==> idx@[q] < 16,
                counts@.len() == 16,
                forall|j: int| 0 <= j < 16 ==> counts@[j] == count_below(self@, *opts, flash_on, j, p as int),
                forall|j: int| 0 <= j < 16 ==> counts@[j] <= p,
            decreases 49152 - p,
        {
            let ci = self.colour_at(p % 256, p / 256, flash_on, opts);
            idx.push(ci as u8);
            let cl: usize = if ci == 8 { 0 } else { ci };
            counts.set(cl, counts[cl] + 1);
            proof {
                assert forall|j: int| 0 <= j < 16 implies counts@[j] == count_below(
                    self@,
                    *opts,
                    flash_on,
                    j,
                    p + 1,
                ) by {
                    assert(count_below(self@, *opts, flash_on, j, p + 1) == count_below(
                        self@,
                        *opts,
                        flash_on,
                        j,
                        p as int,
                    ) + if colour_class(nth_colour(self@, *opts, flash_on, p as int)) == j {
                        1nat
                    } else {
                        0nat
                    });
                }
            }
            p = p + 1;
        }
        (idx, counts)
    }

    /// Render to RGBA at the given flash phase (`false` = normal, `true` =
    /// swapped ink/paper for flashing cells). `scale` is clamped to 1..=8 and
    /// `border` to at most 512, so the size math cannot overflow.
    #[verifier::spinoff_prover]
    pub fn render(&self, flash_on: bool, opts: &RenderOpts) -> (r: Rgba)
        ensures
            rendered(self@, *opts, flash_on, r),
    {
        let (idx, counts) = self.colour_indices(flash_on, opts);
        let mut best: usize = 0;
        let mut i: usize = 1;
        while i < 16
            invariant
                1 <= i <= 16,
                best < i,
                best != 8,
                counts@.len() == 16,
                forall|j: int| 0 <= j < i && j != 8 ==> counts@[j] <= counts@[best as int],
                forall|j: int| best < j < i && j != 8 ==> counts@[j] < counts@[best as int],
            decreases 16 - i,
        {
            if i != 8 && counts[i] >= counts[best] {
                best = i;
            }
            i = i + 1;
        }
        proof {
            assert forall|j: int| 0 <= j < 16 && j != 8 implies colour_count(self@, *opts, flash_on, j) <= colour_count(
                self@,
                *opts,
                flash_on,
                best as int,
            ) by {
                assert(counts@[j] <= counts@[best as int]);
            }
            assert forall|j: int| best < j < 16 && j != 8 implies colour_count(self@, *opts, flash_on, j) < colour_count(
                self@,
                *opts,
                flash_on,
                best as int,
            ) by {
                assert(counts@[j] < counts@[best as int]);
            }
            assert(is_dominant(self@, *opts, flash_on, best as int));
            lemma_dominant_unique(self@, *opts, flash_on, best as int, dominant_colour(self@, *opts, flash_on));
        }
        let border: Rgb = if opts.border_dominant { opts.palette[best] } else { opts.border_rgb };
        let bp: usize = if opts.border > 512 { 512 } else { opts.border as usize };
        let scale: usize = if opts.scale < 1 { 1 } else if opts.scale > 8 { 8 } else { opts.scale as usize };
        let w1: usize = 256 + 2 * bp;
        let h1: usize = 192 + 2 * bp;
        assert(0 < w1 * scale <= 1280 * 8) by (nonlinear_arith)
            requires 256 <= w1 <= 1280, 1 <= scale <= 8;
        assert(h1 * scale <= 1216 * 8) by (nonlinear_arith)
            requires h1 <= 1216, scale <= 8;
        let w: usize = w1 * scale;
        let h: usize = h1 * scale;
        assert(w * h <= 10240 * 9728) by (nonlinear_arith)
            requires w <= 10240, h <= 9728;
        let total: usize = w * h;
        let mut out: Vec<u8> = Vec::new();
        let mut p: usize = 0;
        while p < total
            invariant
                p <= total,
                total == w * h,
                total <= 10240 * 9728,
                w == out_w(*opts),
                h == out_h(*opts),
                w1 == plain_w(*opts),
                scale == eff_scale(*opts),
                bp == eff_border(*opts),
                w > 0,
                border == border_colour(self@, *opts, flash_on),
                idx@.len() == 49152,
                forall|q: int| 0 <= q < 49152 ==> idx@[q] == nth_colour(self@, *opts, flash_on, q),
                forall|q: int| 0 <= q < 49152 ==> idx@[q] < 16,
                out@.len() == p * 4,
                forall|k: int| 0 <= k < p * 4 ==> out@[k] == out_byte(self@, *opts, flash_on, k),
            decreases total - p,
        {
            let xx = p % w;
            let yy = p / w;
            let px = xx / scale;
            let py = yy / scale;
            let col: Rgb = if bp <= px && px < bp + 256 && bp <= py && py < bp + 192 {
                let q = (py - bp) * 256 + (px - bp);
                proof {
                    lemma_fundamental_div_mod_converse(q as int, 256, (py - bp) as int, (px - bp) as int);
                }
                opts.palette[idx[q] as usize]
            } else {
                border
            };
            assert(col == plain_colour(self@, *opts, flash_on, px as int, py as int));
            let ghost before = out@;
            out.push(col[0]);
            out.push(col[1]);
            out.push(col[2]);
            out.push(255u8);
            proof {
                assert forall|k: int| 0 <= k < (p + 1) * 4 implies out@[k] == out_byte(
                    self@,
                    *opts,
                    flash_on,
                    k,
                ) by {
                    if k >= p * 4 {
                        lemma_fundamental_div_mod_converse(k, 4, p as int, k - p * 4);
                    } else {
                        assert(out@[k] == before[k]);
                    }
                }
            }
            p = p + 1;
        }
        Rgba { width: w as u32, height: h as u32, pixels: out, border }
    }


}
} // verus!

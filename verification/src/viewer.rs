//! The platform-independent heart of the ZX-screen lister: the detect string,
//! the view model (which palette, zoom, border and inversion are active and the
//! frame last rendered), the key and click semantics as an [`Action`], and the
//! key maps of the native shells. A shell only creates a native surface, blits
//! [`State::render`], forwards its events through [`apply_action`], and stores
//! the setting [`setting_for`] names.
use vstd::prelude::*;
use crate::screen::{Palette, RenderOpts, Rgb, Rgba, Screen, ScreenView, named_palettes, palette_list, rendered};
use crate::text::{dec_chars, dec_string};
use crate::settings::{border_text, border_value};

verus! {

/// Detect by size only (a ZX screen has no signature): `(SIZE=6912)|(SIZE=6144)`.
/// Parenthesised, no spaces, single `=` - the form Double Commander's own
/// plugins use in `<DetectString>`.
pub const DETECT: [u8; 23] = [
    40, 83, 73, 90, 69, 61, 54, 57, 49, 50, 41, 124, 40, 83, 73, 90, 69, 61, 54, 49, 52, 52, 41,
];

/// What goes into a host buffer of `maxlen` bytes asked for the detect string:
/// nothing when it has no room at all, else as much of the string as fits
/// before a terminating NUL.
pub open spec fn detect_reply(maxlen: int) -> Option<Seq<u8>> {
    if maxlen <= 0 {
        None
    } else {
        let n = if maxlen - 1 < 23 {
            maxlen - 1
        } else {
            23
        };
        Some(DETECT@.take(n) + seq![0u8])
    }
}

/// The bytes to write into a host buffer of `maxlen` bytes for the detect
/// string (always NUL-terminated, truncated to fit), or `None` when the buffer
/// has no room.
pub fn detect_string_bytes(maxlen: i32) -> (r: Option<Vec<u8>>)
    ensures
        r is None <==> detect_reply(maxlen as int) is None,
        r matches Some(v) ==> Some(v@) == detect_reply(maxlen as int),
{
    if maxlen <= 0 {
        return None;
    }
    let cap = (maxlen - 1) as usize;
    let n = if cap < 23 { cap } else { 23 };
    let mut v: Vec<u8> = Vec::new();
    let mut i: usize = 0;
    while i < n
        invariant
            i <= n <= 23,
            v@ == DETECT@.take(i as int),
        decreases n - i,
    {
        v.push(DETECT[i]);
        i = i + 1;
        assert(v@ =~= DETECT@.take(i as int));
    }
    v.push(0u8);
    Some(v)
}

/// Default integer zoom (2x), used when the settings file has no saved value.
pub const DEFAULT_SCALE: u32 = 2;
/// Border thickness in source pixels around the 256x192 screen (scaled too).
pub const BORDER: u32 = 22;
/// Authentic FLASH toggle period, in milliseconds.
pub const FLASH_MS: u32 = 320;

/// How the border is coloured.
#[derive(Copy, Clone, Debug, PartialEq, Eq, Structural)]
pub enum BorderMode {
    /// Most frequent pixel colour of the screen (the default).
    Dominant,
    /// A fixed ZX colour 0..7, no bright.
    Fixed(u8),
}

/// One user gesture, mapped from a native key or mouse event by the OS shell
/// and applied through [`apply_action`].
#[derive(Copy, Clone, Debug, PartialEq, Eq, Structural)]
pub enum Action {
    /// Choose palette by index (0..7: pulsar, wiki1, wiki2, spectaculator,
    /// atm, next, schafft).
    Palette(usize),
    /// Cycle to the next palette (a click).
    NextPalette,
    /// Integer zoom 1x..6x.
    Zoom(u32),
    /// Fixed border colour, ZX colour 0..7.
    BorderFixed(u8),
    /// Border follows the most frequent screen colour (the default).
    BorderDominant,
    /// Swap ink/paper (mono: invert; colour: invert all attributes).
    ToggleInvert,
    /// Enter: mono -> brightness on/off; colour -> attributes off/all-bright/original.
    Cycle,
}

/// The zoom `z` clamped to 1..=6.
pub open spec fn clamp_zoom(z: u32) -> u32 {
    if z < 1 {
        1
    } else if z > 6 {
        6
    } else {
        z
    }
}

/// The content of a [`State`].
pub ghost struct StateView {
    pub screen: ScreenView,
    /// A 6144 bitmap-only screen (white-on-black, no attribute map).
    pub is_mono: bool,
    /// Whether any cell flashes.
    pub has_flash: bool,
    /// The current FLASH phase.
    pub phase: bool,
    /// Palette index 0..7.
    pub pal: int,
    /// Zoom as chosen (clamped again when rendering).
    pub scale: u32,
    /// Ink and paper swapped.
    pub invert: bool,
    /// Brightness of a bitmap-only screen.
    pub bright: bool,
    /// Attribute mode of a colour screen: 0 attributes off, 1 all bright, 2 original.
    pub mode: u8,
    pub border_mode: BorderMode,
}

/// The border colour set for a view when it does not follow the screen.
pub open spec fn fixed_border(v: StateView) -> Rgb {
    let pal = palette_list()[v.pal];
    match v.border_mode {
        BorderMode::Fixed(c) => pal[(c & 7u8) as int],
        BorderMode::Dominant => if v.is_mono {
            pal[if v.invert {
                7int
            } else {
                0int
            }]
        } else {
            [0u8, 0u8, 0u8]
        },
    }
}

/// The render options a view displays its screen with. A bitmap-only screen
/// takes its brightness from the view and its border from its paper; a colour
/// screen shows its attributes off (mode 0, white on black, bright), all bright
/// (mode 1) or as they are (mode 2).
pub open spec fn opts_of(v: StateView) -> RenderOpts {
    RenderOpts {
        scale: clamp_zoom(v.scale),
        border: 22,
        palette: &palette_list()[v.pal],
        invert: v.invert,
        force_bright: if v.is_mono {
            Some(v.bright)
        } else if v.mode == 0 || v.mode == 1 {
            Some(true)
        } else {
            None
        },
        border_rgb: fixed_border(v),
        border_dominant: v.border_mode is Dominant,
        mono: !v.is_mono && v.mode == 0,
    }
}

/// The view after gesture `a`. A palette index out of range changes nothing.
pub open spec fn step(v: StateView, a: Action) -> StateView {
    match a {
        Action::Palette(p) => if p < 7 {
            StateView { pal: p as int, ..v }
        } else {
            v
        },
        Action::NextPalette => StateView { pal: (v.pal + 1) % 7, ..v },
        Action::Zoom(z) => StateView { scale: clamp_zoom(z), ..v },
        Action::BorderFixed(c) => StateView { border_mode: BorderMode::Fixed(c & 7u8), ..v },
        Action::BorderDominant => StateView { border_mode: BorderMode::Dominant, ..v },
        Action::ToggleInvert => StateView { invert: !v.invert, ..v },
        Action::Cycle => if v.is_mono {
            StateView { bright: !v.bright, ..v }
        } else {
            StateView { mode: ((v.mode + 1) % 3) as u8, ..v }
        },
    }
}

/// Whether a screen has a cell with the FLASH bit.
pub open spec fn any_flash(s: ScreenView) -> bool {
    exists|i: int| 0 <= i < s.attrs.len() && #[trigger] s.attrs[i] & 0x80u8 != 0u8
}

/// The whole viewer state for one open file: the parsed screen, the active
/// display options, and the last rendered RGBA frame the shell blits.
pub struct State {
    screen: Screen,
    is_mono: bool,
    has_flash: bool,
    phase: bool,
    pal: usize,
    scale: u32,
    invert: bool,
    bright: bool,
    mode: u8,
    border_mode: BorderMode,
    render: Rgba,
}

impl View for State {
    type V = StateView;

    closed spec fn view(&self) -> StateView {
        StateView {
            screen: self.screen@,
            is_mono: self.is_mono,
            has_flash: self.has_flash,
            phase: self.phase,
            pal: self.pal as int,
            scale: self.scale,
            invert: self.invert,
            bright: self.bright,
            mode: self.mode,
            border_mode: self.border_mode,
        }
    }
}

impl State {
    /// The palette and attribute mode are in range, the FLASH flag says
    /// whether a cell of the screen flashes, and the frame is the render of
    /// the screen with the current options at the current phase.
    #[verifier::type_invariant]
    spec fn in_range(&self) -> bool {
        &&& self.pal < 7
        &&& self.mode < 3
        &&& self.has_flash == any_flash(self.screen@)
        &&& rendered(self.screen@, opts_of(self@), self.phase, self.render)
    }

    /// The frame last rendered.
    pub closed spec fn frame(&self) -> Rgba {
        self.render
    }

    /// The frame shown is the render of the screen with the current options
    /// at the current FLASH phase.
    pub open spec fn frame_is_current(&self) -> bool {
        rendered(self@.screen, opts_of(self@), self@.phase, self.frame())
    }

    /// Build the state for a parsed screen and render the first frame. The zoom
    /// and border mode are the saved settings (`None` zoom: the default 2x).
    pub fn new(screen: Screen, is_mono: bool, saved_scale: Option<u32>, saved_border: BorderMode) -> (st: State)
        ensures
            st@ == (StateView {
                screen: screen@,
                is_mono,
                has_flash: any_flash(screen@),
                phase: false,
                pal: 0,
                scale: match saved_scale {
                    Some(z) => z,
                    None => 2,
                },
                invert: false,
                bright: true,
                mode: 2,
                border_mode: saved_border,
            }),
            st.frame_is_current(),
    {
        let has_flash = screen.has_flash();
        let scale = match saved_scale {
            Some(z) => z,
            None => DEFAULT_SCALE,
        };
        State::build(screen, is_mono, has_flash, false, 0, scale, false, true, 2, saved_border)
    }

    /// The state showing `screen` with the given options, its frame rendered.
    fn build(
        screen: Screen,
        is_mono: bool,
        has_flash: bool,
        phase: bool,
        pal: usize,
        scale: u32,
        invert: bool,
        bright: bool,
        mode: u8,
        border_mode: BorderMode,
    ) -> (st: State)
        requires
            pal < 7,
            mode < 3,
            has_flash == any_flash(screen@),
        ensures
            st@ == (StateView {
                screen: screen@,
                is_mono,
                has_flash,
                phase,
                pal: pal as int,
                scale,
                invert,
                bright,
                mode,
                border_mode,
            }),
            st.frame_is_current(),
    {
        let ghost v = StateView {
            screen: screen@,
            is_mono,
            has_flash,
            phase,
            pal: pal as int,
            scale,
            invert,
            bright,
            mode,
            border_mode,
        };
        let o = opts_for(Ghost(v), is_mono, pal, scale, invert, bright, mode, border_mode);
        let render = screen.render(phase, &o);
        State { screen, is_mono, has_flash, phase, pal, scale, invert, bright, mode, border_mode, render }
    }

    /// A bitmap-only screen.
    pub fn is_mono(&self) -> (r: bool)
        ensures
            r == self@.is_mono,
    {
        self.is_mono
    }

    /// Whether any cell flashes (so the shell arms a timer).
    pub fn has_flash(&self) -> (r: bool)
        ensures
            r == self@.has_flash,
            r == any_flash(self@.screen),
    {
        proof {
            use_type_invariant(self);
        }
        self.has_flash
    }

    /// The current FLASH phase.
    pub fn phase(&self) -> (r: bool)
        ensures
            r == self@.phase,
    {
        self.phase
    }

    /// The active palette index (0..7).
    pub fn pal(&self) -> (r: usize)
        ensures
            r == self@.pal,
            r < 7,
    {
        proof {
            use_type_invariant(self);
        }
        self.pal
    }

    /// The zoom as chosen.
    pub fn scale(&self) -> (r: u32)
        ensures
            r == self@.scale,
    {
        self.scale
    }

    /// Whether ink and paper are swapped.
    pub fn invert(&self) -> (r: bool)
        ensures
            r == self@.invert,
    {
        self.invert
    }

    /// The brightness of a bitmap-only screen.
    pub fn bright(&self) -> (r: bool)
        ensures
            r == self@.bright,
    {
        self.bright
    }

    /// The attribute mode of a colour screen.
    pub fn mode(&self) -> (r: u8)
        ensures
            r == self@.mode,
            r < 3,
    {
        proof {
            use_type_invariant(self);
        }
        self.mode
    }

    /// How the border is coloured.
    pub fn border_mode(&self) -> (r: BorderMode)
        ensures
            r == self@.border_mode,
    {
        self.border_mode
    }

    /// The frame shown (RGBA, top row first): the render of the screen with
    /// the current options at the current FLASH phase.
    pub fn render(&self) -> (r: &Rgba)
        ensures
            *r == self.frame(),
            rendered(self@.screen, opts_of(self@), self@.phase, *r),
    {
        proof {
            use_type_invariant(self);
        }
        &self.render
    }

    /// The render options for the current view.
    pub fn opts(&self) -> (o: RenderOpts)
        ensures
            o == opts_of(self@),
    {
        proof {
            use_type_invariant(self);
        }
        opts_for(
            Ghost(self@),
            self.is_mono,
            self.pal,
            self.scale,
            self.invert,
            self.bright,
            self.mode,
            self.border_mode,
        )
    }

    /// Advance the FLASH phase and re-render (called from the shell's timer).
    /// On a screen without FLASH the frame stays as it was.
    pub fn tick(&mut self)
        ensures
            final(self)@ == (StateView { phase: !old(self)@.phase, ..old(self)@ }),
            final(self).frame_is_current(),
            !old(self)@.has_flash ==> {
                &&& final(self).frame().width == old(self).frame().width
                &&& final(self).frame().height == old(self).frame().height
                &&& final(self).frame().border == old(self).frame().border
                &&& final(self).frame().pixels@ == old(self).frame().pixels@
            },
    {
        proof {
            use_type_invariant(&*self);
        }
        let screen = self.screen.duplicate();
        let ghost before = self.render;
        let next = State::build(
            screen,
            self.is_mono,
            self.has_flash,
            !self.phase,
            self.pal,
            self.scale,
            self.invert,
            self.bright,
            self.mode,
            self.border_mode,
        );
        proof {
            use_type_invariant(&next);
            if !self.has_flash {
                let v = self@;
                if self.phase {
                    crate::screen_laws::lemma_no_flash_phases_alike(v.screen, opts_of(v), before, next.render);
                } else {
                    crate::screen_laws::lemma_no_flash_phases_alike(v.screen, opts_of(v), next.render, before);
                }
            }
        }
        *self = next;
    }
}

/// Apply a user gesture and re-render. Returns whether anything changed (so
/// the shell repaints): a gesture that leaves the view as it was (an
/// out-of-range palette, or the palette, zoom or border already shown) changes
/// nothing, the frame included.
#[verifier::spinoff_prover]
pub fn apply_action(st: &mut State, action: Action) -> (changed: bool)
    ensures
        final(st)@ == step(old(st)@, action),
        changed <==> final(st)@ != old(st)@,
        final(st).frame_is_current(),
        !changed ==> final(st).frame() == old(st).frame(),
{
    proof {
        use_type_invariant(&*st);
    }
    let mut pal = st.pal;
    let mut scale = st.scale;
    let mut invert = st.invert;
    let mut bright = st.bright;
    let mut mode = st.mode;
    let mut border_mode = st.border_mode;
    match action {
        Action::Palette(p) => {
            if p < 7 {
                pal = p;
            }
        },
        Action::NextPalette => {
            pal = (pal + 1) % 7;
        },
        Action::Zoom(z) => {
            scale = if z < 1 { 1 } else if z > 6 { 6 } else { z };
        },
        Action::BorderFixed(c) => {
            border_mode = BorderMode::Fixed(c & 7u8);
        },
        Action::BorderDominant => {
            border_mode = BorderMode::Dominant;
        },
        Action::ToggleInvert => {
            invert = !invert;
        },
        Action::Cycle => {
            if st.is_mono {
                bright = !bright;
            } else {
                mode = (mode + 1) % 3;
            }
        },
    }
    let same = pal == st.pal && scale == st.scale && invert == st.invert && bright == st.bright
        && mode == st.mode && border_mode == st.border_mode;
    if same {
        return false;
    }
    let next = State::build(
        st.screen.duplicate(),
        st.is_mono,
        st.has_flash,
        st.phase,
        pal,
        scale,
        invert,
        bright,
        mode,
        border_mode,
    );
    proof {
        use_type_invariant(&next);
    }
    *st = next;
    true
}

/// The render options of a view with the given settings.
fn opts_for(
    Ghost(v): Ghost<StateView>,
    is_mono: bool,
    pal_ix: usize,
    scale: u32,
    invert: bool,
    bright: bool,
    mode: u8,
    border_mode: BorderMode,
) -> (o: RenderOpts)
    requires
        pal_ix < 7,
        v.is_mono == is_mono,
        v.pal == pal_ix as int,
        v.scale == scale,
        v.invert == invert,
        v.bright == bright,
        v.mode == mode,
        v.border_mode == border_mode,
    ensures
        o == opts_of(v),
{
    let all = named_palettes();
    let pal: &'static Palette = all[pal_ix].1;
    let zoom: u32 = if scale < 1 { 1 } else if scale > 6 { 6 } else { scale };
    let mut o = RenderOpts {
        scale: zoom,
        border: BORDER,
        palette: pal,
        invert,
        force_bright: None,
        border_rgb: [0, 0, 0],
        border_dominant: false,
        mono: false,
    };
    if is_mono {
        o.force_bright = Some(bright);
        o.border_rgb = pal[if invert { 7 } else { 0 }];
    } else {
        if mode == 0 {
            o.mono = true;
            o.force_bright = Some(true);
        } else if mode == 1 {
            o.force_bright = Some(true);
        }
    }
    match border_mode {
        BorderMode::Dominant => {
            o.border_dominant = true;
        },
        BorderMode::Fixed(c) => {
            assert(c & 7u8 < 8u8) by (bit_vector);
            o.border_rgb = pal[(c & 7u8) as usize];
        },
    }
    o
}

/// Two viewer states with the same view show the same frame (so two FLASH
/// ticks, or a gesture and its undoing, bring back the frame first shown).
pub proof fn lemma_same_view_same_frame(a: State, b: State)
    requires
        a@ == b@,
        a.frame_is_current(),
        b.frame_is_current(),
    ensures
        a.frame().width == b.frame().width,
        a.frame().height == b.frame().height,
        a.frame().border == b.frame().border,
        a.frame().pixels@ == b.frame().pixels@,
{
    crate::screen_laws::lemma_render_determined(a@.screen, opts_of(a@), a@.phase, a.frame(), b.frame());
}

/// A fixed border shows the ZX colour it names: with border mode `Fixed(c)`
/// the frame's border is entry `c & 7` of the active palette (0 black, 1 blue,
/// 2 red, ..., 7 white).
pub proof fn lemma_fixed_border_shows_its_colour(st: State, c: u8)
    requires
        st.frame_is_current(),
        st@.border_mode == BorderMode::Fixed(c),
    ensures
        st.frame().border == palette_list()[st@.pal][(c & 7u8) as int],
{
}

/// Alt+`c` (the gesture [`Action::BorderFixed`]) gives the frame the border of
/// ZX colour `c & 7` in the palette shown.
pub proof fn lemma_border_gesture_colour(before: State, after: State, c: u8)
    requires
        after@ == step(before@, Action::BorderFixed(c)),
        after.frame_is_current(),
    ensures
        after.frame().border == palette_list()[before@.pal][(c & 7u8) as int],
{
    assert((c & 7u8) & 7u8 == c & 7u8) by (bit_vector);
}

/// The settings-file line a gesture changes, as `(key, value)`, once it has
/// taken the viewer to `st`: the zoom and the border survive the viewer being
/// closed; nothing else is saved.
pub open spec fn saved_setting(action: Action, v: StateView) -> Option<(Seq<char>, Seq<char>)> {
    match action {
        Action::Zoom(_) => Some(("screen_scale"@, dec_chars(v.scale as nat))),
        Action::BorderFixed(_) => Some(("screen_border_color"@, border_text(v.border_mode))),
        Action::BorderDominant => Some(("screen_border_color"@, border_text(v.border_mode))),
        _ => None,
    }
}

/// The setting to persist after `action` took the viewer to `st`, as a key
/// and its value text, or `None` when the gesture saves nothing.
pub fn setting_for(action: Action, st: &State) -> (r: Option<(String, String)>)
    ensures
        r is None <==> saved_setting(action, st@) is None,
        r matches Some(kv) ==> saved_setting(action, st@) == Some((kv.0@, kv.1@)),
{
    match action {
        Action::Zoom(_) => Some((String::from_str("screen_scale"), dec_string(st.scale() as u64))),
        Action::BorderFixed(_) | Action::BorderDominant => Some(
            (String::from_str("screen_border_color"), border_value(st.border_mode())),
        ),
        _ => None,
    }
}

/// The action of a number key with its modifiers: Alt takes precedence, then
/// Shift; a bare digit is a palette key.
///   Alt+0..7 fixed border   Alt+8 dominant
///   Shift+1..6 zoom         (Shift with any other digit is no shortcut)
///   1..7 palette            (only with neither Shift nor Alt)
pub open spec fn digit_action_of(digit: Option<u8>, shift: bool, alt: bool) -> Option<Action> {
    match digit {
        None => None,
        Some(d) => if alt {
            if d == 8 {
                Some(Action::BorderDominant)
            } else if d <= 7 {
                Some(Action::BorderFixed(d))
            } else {
                None
            }
        } else if shift {
            if 1 <= d <= 6 {
                Some(Action::Zoom(d as u32))
            } else {
                None
            }
        } else {
            if 1 <= d <= 7 {
                Some(Action::Palette((d - 1) as usize))
            } else {
                None
            }
        },
    }
}

/// Map a number-key press (with its modifiers) to an [`Action`], shared by all
/// shells so the modifier semantics stay identical. `digit` is the main-row
/// digit 0..9, or `None` for a non-digit key.
pub fn digit_action(digit: Option<u8>, shift: bool, alt: bool) -> (r: Option<Action>)
    ensures
        r == digit_action_of(digit, shift, alt),
{
    let d = match digit {
        Some(d) => d,
        None => {
            return None;
        },
    };
    if alt {
        if d == 8 {
            Some(Action::BorderDominant)
        } else if d <= 7 {
            Some(Action::BorderFixed(d))
        } else {
            None
        }
    } else if shift {
        if 1 <= d && d <= 6 {
            Some(Action::Zoom(d as u32))
        } else {
            None
        }
    } else {
        if 1 <= d && d <= 7 {
            Some(Action::Palette((d - 1) as usize))
        } else {
            None
        }
    }
}

/// Whether a Windows key-down message is an OS auto-repeat: bit 30 of its
/// `lParam` (the previous key state) is set. A repeat is not applied, so a held
/// Space or Enter does not strobe.
pub fn is_auto_repeat(lparam: u64) -> (r: bool)
    ensures
        r == (lparam & 0x4000_0000u64 != 0u64),
{
    lparam & 0x4000_0000u64 != 0u64
}

/// Whether a `WM_SYSCHAR` is swallowed: the one paired with an Alt+digit
/// border hotkey (a main-row digit, tested on the full UTF-16 code unit so a
/// letter whose low byte looks like a digit stays a menu mnemonic). Any other
/// goes to the default menu handling.
pub fn swallows_syschar(code: usize) -> (r: bool)
    ensures
        r == (0x30 <= code <= 0x39),
{
    0x30 <= code && code <= 0x39
}

/// Windows virtual key of Space.
pub const VK_SPACE: u32 = 0x20;
/// Windows virtual key of Enter.
pub const VK_RETURN: u32 = 0x0D;

/// The action of a Windows virtual-key press. VK 0x30..0x39 are the main-row
/// digits (the numpad has its own VKs and is left out). Space and Enter are
/// the invert and cycle keys, but only without Alt, so Alt+Space (the window
/// menu) and Alt+Enter reach the host.
pub open spec fn win_key_action_of(vk: u32, shift: bool, alt: bool) -> Option<Action> {
    let digit = if 0x30 <= vk <= 0x39 {
        Some((vk - 0x30) as u8)
    } else {
        None
    };
    match digit_action_of(digit, shift, alt) {
        Some(a) => Some(a),
        None => if alt {
            None
        } else if vk == VK_SPACE {
            Some(Action::ToggleInvert)
        } else if vk == VK_RETURN {
            Some(Action::Cycle)
        } else {
            None
        },
    }
}

/// Map a Windows virtual-key press, with the live Shift and Alt states, to a
/// viewer [`Action`], or `None` for keys the viewer does not use.
pub fn win_key_action(vk: u32, shift: bool, alt: bool) -> (r: Option<Action>)
    ensures
        r == win_key_action_of(vk, shift, alt),
{
    let digit = if 0x30 <= vk && vk <= 0x39 { Some((vk - 0x30) as u8) } else { None };
    match digit_action(digit, shift, alt) {
        Some(a) => Some(a),
        None => {
            if alt {
                None
            } else if vk == VK_SPACE {
                Some(Action::ToggleInvert)
            } else if vk == VK_RETURN {
                Some(Action::Cycle)
            } else {
                None
            }
        },
    }
}

/// Qt's Shift modifier bit.
pub const QT_SHIFT_MODIFIER: u32 = 0x0200_0000;
/// Qt's Alt modifier bit.
pub const QT_ALT_MODIFIER: u32 = 0x0800_0000;
/// Qt key code of Space.
pub const QT_KEY_SPACE: i32 = 0x20;
/// Qt key code of Return.
pub const QT_KEY_RETURN: i32 = 0x0100_0004;
/// Qt key code of the keypad Enter.
pub const QT_KEY_ENTER: i32 = 0x0100_0005;

/// The main-row digit of a Qt key event: xkb scan codes 10..19 are the digit
/// row 1..9, 0 (positional and layout-free); the key code stands in only when
/// the platform reports no scan code.
pub open spec fn qt_digit(scan: u32, key: i32) -> Option<u8> {
    if 10 <= scan <= 18 {
        Some((scan - 9) as u8)
    } else if scan == 19 {
        Some(0u8)
    } else if scan == 0 && 0x30 <= key <= 0x39 {
        Some((key - 0x30) as u8)
    } else {
        None
    }
}

/// The action of a Qt key press: the digit keys as everywhere, Space (scan
/// 65) inverts and Return (scan 36, keypad 104) cycles, but only without Alt.
pub open spec fn qt_key_action_of(modifiers: u32, scan: u32, key: i32) -> Option<Action> {
    let shift = modifiers & QT_SHIFT_MODIFIER != 0;
    let alt = modifiers & QT_ALT_MODIFIER != 0;
    match digit_action_of(qt_digit(scan, key), shift, alt) {
        Some(a) => Some(a),
        None => if alt {
            None
        } else if scan == 65 || (scan == 0 && key == QT_KEY_SPACE) {
            Some(Action::ToggleInvert)
        } else if scan == 36 || scan == 104 || (scan == 0 && (key == QT_KEY_RETURN || key
            == QT_KEY_ENTER)) {
            Some(Action::Cycle)
        } else {
            None
        },
    }
}

/// Map a Qt key press (modifier mask, native scan code, key code) to a viewer
/// [`Action`], or `None` for keys the viewer does not use.
pub fn qt_key_action(modifiers: u32, scan: u32, key: i32) -> (r: Option<Action>)
    ensures
        r == qt_key_action_of(modifiers, scan, key),
{
    let shift = modifiers & QT_SHIFT_MODIFIER != 0;
    let alt = modifiers & QT_ALT_MODIFIER != 0;
    let digit: Option<u8> = if 10 <= scan && scan <= 18 {
        Some((scan - 9) as u8)
    } else if scan == 19 {
        Some(0u8)
    } else if scan == 0 && 0x30 <= key && key <= 0x39 {
        Some((key - 0x30) as u8)
    } else {
        None
    };
    match digit_action(digit, shift, alt) {
        Some(a) => Some(a),
        None => {
            if alt {
                None
            } else if scan == 65 || (scan == 0 && key == QT_KEY_SPACE) {
                Some(Action::ToggleInvert)
            } else if scan == 36 || scan == 104 || (scan == 0 && (key == QT_KEY_RETURN || key
                == QT_KEY_ENTER)) {
                Some(Action::Cycle)
            } else {
                None
            }
        },
    }
}

/// The main-row digit of a macOS key code (the row is not contiguous), or
/// `None`; the numpad is left out.
pub open spec fn mac_digit(key_code: u16) -> Option<u8> {
    if key_code == 0x1D {
        Some(0u8)
    } else if key_code == 0x12 {
        Some(1u8)
    } else if key_code == 0x13 {
        Some(2u8)
    } else if key_code == 0x14 {
        Some(3u8)
    } else if key_code == 0x15 {
        Some(4u8)
    } else if key_code == 0x17 {
        Some(5u8)
    } else if key_code == 0x16 {
        Some(6u8)
    } else if key_code == 0x1A {
        Some(7u8)
    } else if key_code == 0x1C {
        Some(8u8)
    } else if key_code == 0x19 {
        Some(9u8)
    } else {
        None
    }
}

/// The action of a macOS key press. Command is never one of the viewer's
/// chords; Option plays the part of Alt; Space (0x31) inverts and Return or
/// keypad Enter (0x24, 0x4C) cycle, but only without Option.
pub open spec fn mac_key_action_of(key_code: u16, command: bool, shift: bool, option: bool) -> Option<Action> {
    if command {
        None
    } else {
        match digit_action_of(mac_digit(key_code), shift, option) {
            Some(a) => Some(a),
            None => if option {
                None
            } else if key_code == 0x31 {
                Some(Action::ToggleInvert)
            } else if key_code == 0x24 || key_code == 0x4C {
                Some(Action::Cycle)
            } else {
                None
            },
        }
    }
}

/// Map a macOS key press (key code and the Command, Shift and Option flags) to
/// a viewer [`Action`], or `None` for keys left to the host.
pub fn mac_key_action(key_code: u16, command: bool, shift: bool, option: bool) -> (r: Option<Action>)
    ensures
        r == mac_key_action_of(key_code, command, shift, option),
{
    if command {
        return None;
    }
    let digit: Option<u8> = if key_code == 0x1D {
        Some(0u8)
    } else if key_code == 0x12 {
        Some(1u8)
    } else if key_code == 0x13 {
        Some(2u8)
    } else if key_code == 0x14 {
        Some(3u8)
    } else if key_code == 0x15 {
        Some(4u8)
    } else if key_code == 0x17 {
        Some(5u8)
    } else if key_code == 0x16 {
        Some(6u8)
    } else if key_code == 0x1A {
        Some(7u8)
    } else if key_code == 0x1C {
        Some(8u8)
    } else if key_code == 0x19 {
        Some(9u8)
    } else {
        None
    };
    match digit_action(digit, shift, option) {
        Some(a) => Some(a),
        None => {
            if option {
                None
            } else if key_code == 0x31 {
                Some(Action::ToggleInvert)
            } else if key_code == 0x24 || key_code == 0x4C {
                Some(Action::Cycle)
            } else {
                None
            }
        },
    }
}

/// Byte `k` of the BGRA form of an RGBA frame: within each whole 4-byte pixel
/// red and blue change places; a trailing partial pixel becomes zeros.
pub open spec fn bgra_byte(rgba: Seq<u8>, k: int) -> u8 {
    if k >= (rgba.len() / 4) * 4 {
        0u8
    } else if k % 4 == 0 {
        rgba[k + 2]
    } else if k % 4 == 2 {
        rgba[k - 2]
    } else {
        rgba[k]
    }
}

/// Convert an RGBA frame to the BGRA a 32-bit top-down Windows DIB expects.
#[verifier::spinoff_prover]
pub fn rgba_to_bgra(rgba: &[u8]) -> (out: Vec<u8>)
    ensures
        out@.len() == rgba@.len(),
        forall|k: int| 0 <= k < out@.len() ==> out@[k] == bgra_byte(rgba@, k),
{
    let n = rgba.len();
    let whole = n / 4;
    let mut out: Vec<u8> = Vec::new();
    let mut p: usize = 0;
    while p < whole
        invariant
            whole == n / 4,
            n == rgba@.len(),
            p <= whole,
            out@.len() == p * 4,
            forall|k: int| 0 <= k < p * 4 ==> out@[k] == bgra_byte(rgba@, k),
        decreases whole - p,
    {
        let o = p * 4;
        out.push(rgba[o + 2]);
        out.push(rgba[o + 1]);
        out.push(rgba[o]);
        out.push(rgba[o + 3]);
        p = p + 1;
    }
    let mut k: usize = whole * 4;
    while k < n
        invariant
            whole == n / 4,
            n == rgba@.len(),
            whole * 4 <= k <= n,
            out@.len() == k,
            forall|j: int| 0 <= j < k ==> out@[j] == bgra_byte(rgba@, j),
        decreases n - k,
    {
        out.push(0u8);
        k = k + 1;
    }
    out
}

/// Every gesture stays inside the category its modifier selects: a bare digit
/// is a palette key or nothing, Shift+digit a zoom of 1..6 or nothing, and
/// Alt+digit (whatever Shift does) a border key or nothing; a palette index is
/// always one of the seven and a border colour one of the eight.
pub proof fn lemma_digit_categories(digit: Option<u8>, shift: bool, alt: bool)
    ensures
        !alt && !shift ==> (digit_action_of(digit, shift, alt) is None || (digit_action_of(
            digit,
            shift,
            alt,
        ) matches Some(Action::Palette(p)) && p < 7)),
        !alt && shift ==> (digit_action_of(digit, shift, alt) is None || (digit_action_of(
            digit,
            shift,
            alt,
        ) matches Some(Action::Zoom(z)) && 1 <= z <= 6)),
        alt ==> (digit_action_of(digit, shift, alt) is None || digit_action_of(digit, shift, alt)
            == Some(Action::BorderDominant) || (digit_action_of(digit, shift, alt) matches Some(
            Action::BorderFixed(c),
        ) && c <= 7)),
{
}

/// On a colour screen three Enter presses bring the attribute mode back; on a
/// bitmap-only screen Enter toggles the brightness instead and never touches
/// the attribute mode, so two presses bring it back.
pub proof fn lemma_cycle_returns(v: StateView)
    requires
        v.mode < 3,
    ensures
        !v.is_mono ==> step(step(step(v, Action::Cycle), Action::Cycle), Action::Cycle) == v,
        !v.is_mono ==> step(v, Action::Cycle).mode != v.mode,
        v.is_mono ==> step(v, Action::Cycle).mode == v.mode && step(v, Action::Cycle).bright
            != v.bright,
        v.is_mono ==> step(step(v, Action::Cycle), Action::Cycle) == v,
{
}

/// Seven clicks walk through every palette and come back to the first.
pub proof fn lemma_next_palette_cycles(v: StateView)
    requires
        0 <= v.pal < 7,
    ensures
        step(
            step(
                step(
                    step(step(step(step(v, Action::NextPalette), Action::NextPalette), Action::NextPalette), Action::NextPalette),
                    Action::NextPalette,
                ),
                Action::NextPalette,
            ),
            Action::NextPalette,
        ) == v,
        step(v, Action::NextPalette).pal != v.pal,
{
}

/// No gesture changes the screen, its kind, or the FLASH phase; only the
/// timer moves the phase.
pub proof fn lemma_gestures_keep_the_screen(v: StateView, a: Action)
    ensures
        step(v, a).screen == v.screen,
        step(v, a).is_mono == v.is_mono,
        step(v, a).has_flash == v.has_flash,
        step(v, a).phase == v.phase,
{
}

} // verus!

//! The viewer model: key and click semantics, the detect string, what each
//! gesture changes, and the saved settings.
use zxdisk::screen::Screen;
use zxdisk::settings::{
    border_value, parse_border, parse_scale, setting_in, with_setting,
};
use zxdisk::viewer::{
    apply_action, detect_string_bytes, digit_action, is_auto_repeat, mac_key_action, qt_key_action,
    setting_for, swallows_syschar, win_key_action, Action, BorderMode, State, DETECT,
};

#[test]
fn viewer_plain_digits_select_palettes() {
    assert!(matches!(digit_action(Some(1), false, false), Some(Action::Palette(0))));
    assert!(matches!(digit_action(Some(7), false, false), Some(Action::Palette(6))));
    // 0/8/9 are not palette keys
    assert!(digit_action(Some(0), false, false).is_none());
    assert!(digit_action(Some(8), false, false).is_none());
    assert!(digit_action(Some(9), false, false).is_none());
    assert!(digit_action(None, false, false).is_none());
}

#[test]
fn viewer_shift_is_zoom_1_to_6_only() {
    assert!(matches!(digit_action(Some(1), true, false), Some(Action::Zoom(1))));
    assert!(matches!(digit_action(Some(6), true, false), Some(Action::Zoom(6))));
    // The reported bug: Shift+7 must NOT fall through to palette 7 (nor anything).
    assert!(digit_action(Some(7), true, false).is_none());
    assert!(digit_action(Some(0), true, false).is_none());
    assert!(digit_action(Some(8), true, false).is_none());
}

#[test]
fn viewer_alt_is_border_and_wins_over_shift() {
    assert!(matches!(digit_action(Some(0), false, true), Some(Action::BorderFixed(0))));
    assert!(matches!(digit_action(Some(7), false, true), Some(Action::BorderFixed(7))));
    assert!(matches!(digit_action(Some(8), false, true), Some(Action::BorderDominant)));
    // Alt takes precedence when both are held.
    assert!(matches!(digit_action(Some(3), true, true), Some(Action::BorderFixed(3))));
}

// Exhaustive: for every digit and every Shift/Alt combination, the action
// must stay inside the category that modifier selects - it must never
// "leak" across (the Shift+7 -> palette bug was exactly such a leak). This
// proves there are no hidden cross-combination overlaps.
#[test]
fn viewer_no_cross_category_leaks() {
    for d in 0u8..=9 {
        // plain digit: palette or nothing - never zoom/border
        assert!(
            matches!(digit_action(Some(d), false, false), None | Some(Action::Palette(_))),
            "plain {d} leaked"
        );
        // Shift+digit: zoom or nothing - never palette/border
        assert!(
            matches!(digit_action(Some(d), true, false), None | Some(Action::Zoom(_))),
            "shift {d} leaked"
        );
        // Alt+digit: border or nothing - never palette/zoom
        assert!(
            matches!(
                digit_action(Some(d), false, true),
                None | Some(Action::BorderFixed(_)) | Some(Action::BorderDominant)
            ),
            "alt {d} leaked"
        );
        // Alt+Shift+digit: Alt wins (border) - never zoom/palette
        assert!(
            matches!(
                digit_action(Some(d), true, true),
                None | Some(Action::BorderFixed(_)) | Some(Action::BorderDominant)
            ),
            "alt+shift {d} leaked"
        );
        // Palette/border indices never go out of range.
        if let Some(Action::Palette(p)) = digit_action(Some(d), false, false) {
            assert!(p < 7, "palette index {p} out of range");
        }
        if let Some(Action::BorderFixed(c)) = digit_action(Some(d), false, true) {
            assert!(c <= 7, "border colour {c} out of range");
        }
    }
}

#[test]
fn tests_plain_digits_select_palettes() {
    assert!(matches!(digit_action(Some(1), false, false), Some(Action::Palette(0))));
    assert!(matches!(digit_action(Some(7), false, false), Some(Action::Palette(6))));
    // 0/8/9 are not palette keys
    assert!(digit_action(Some(0), false, false).is_none());
    assert!(digit_action(Some(8), false, false).is_none());
    assert!(digit_action(Some(9), false, false).is_none());
    assert!(digit_action(None, false, false).is_none());
}

#[test]
fn tests_shift_is_zoom_1_to_6_only() {
    assert!(matches!(digit_action(Some(1), true, false), Some(Action::Zoom(1))));
    assert!(matches!(digit_action(Some(6), true, false), Some(Action::Zoom(6))));
    // The reported bug: Shift+7 must NOT fall through to palette 7 (nor anything).
    assert!(digit_action(Some(7), true, false).is_none());
    assert!(digit_action(Some(0), true, false).is_none());
    assert!(digit_action(Some(8), true, false).is_none());
}

#[test]
fn tests_alt_is_border_and_wins_over_shift() {
    assert!(matches!(digit_action(Some(0), false, true), Some(Action::BorderFixed(0))));
    assert!(matches!(digit_action(Some(7), false, true), Some(Action::BorderFixed(7))));
    assert!(matches!(digit_action(Some(8), false, true), Some(Action::BorderDominant)));
    // Alt takes precedence when both are held.
    assert!(matches!(digit_action(Some(3), true, true), Some(Action::BorderFixed(3))));
}

// Exhaustive: for every digit and every Shift/Alt combination, the action
// must stay inside the category that modifier selects - it must never
// "leak" across (the Shift+7 -> palette bug was exactly such a leak). This
// proves there are no hidden cross-combination overlaps.
#[test]
fn tests_no_cross_category_leaks() {
    for d in 0u8..=9 {
        // plain digit: palette or nothing - never zoom/border
        assert!(
            matches!(digit_action(Some(d), false, false), None | Some(Action::Palette(_))),
            "plain {d} leaked"
        );
        // Shift+digit: zoom or nothing - never palette/border
        assert!(
            matches!(digit_action(Some(d), true, false), None | Some(Action::Zoom(_))),
            "shift {d} leaked"
        );
        // Alt+digit: border or nothing - never palette/zoom
        assert!(
            matches!(
                digit_action(Some(d), false, true),
                None | Some(Action::BorderFixed(_)) | Some(Action::BorderDominant)
            ),
            "alt {d} leaked"
        );
        // Alt+Shift+digit: Alt wins (border) - never zoom/palette
        assert!(
            matches!(
                digit_action(Some(d), true, true),
                None | Some(Action::BorderFixed(_)) | Some(Action::BorderDominant)
            ),
            "alt+shift {d} leaked"
        );
        // Palette/border indices never go out of range.
        if let Some(Action::Palette(p)) = digit_action(Some(d), false, false) {
            assert!(p < 7, "palette index {p} out of range");
        }
        if let Some(Action::BorderFixed(c)) = digit_action(Some(d), false, true) {
            assert!(c <= 7, "border colour {c} out of range");
        }
    }
}

// ---- the detect string -------------------------------------------

#[test]
fn the_detect_string_is_the_shape_double_commander_parses() {
    let s = String::from_utf8(DETECT.to_vec()).expect("not ASCII");
    // Parenthesised, single '=', no spaces - the form DC's own plugins use and
    // the form its parser accepts.
    assert!(s.contains("(SIZE=6912)"), "{s}");
    assert!(s.contains("(SIZE=6144)"), "{s}");
    assert!(!s.contains(' '), "a space stops DC's parser: {s}");
    assert!(!s.contains("=="), "{s}");
}

#[test]
fn a_roomy_buffer_gets_the_whole_string_and_a_terminator() {
    let got = detect_string_bytes(256).unwrap();
    assert_eq!(&got[..got.len() - 1], &DETECT[..]);
    assert_eq!(got[DETECT.len()], 0, "no terminator after the string");
}

#[test]
fn a_short_buffer_is_truncated_and_still_terminated() {
    for cap in 1..=(DETECT.len() + 2) {
        let got = detect_string_bytes(cap as i32).unwrap();
        assert!(got.len() <= cap, "cap {cap}: wrote past the end");
        let text = &got[..got.len() - 1];
        assert!(text.len() < cap, "cap {cap}: no room left for the terminator");
        assert_eq!(text, &DETECT[..text.len()], "cap {cap}: not a prefix");
        assert_eq!(got[text.len()], 0, "cap {cap}: not terminated");
    }
}

#[test]
fn a_buffer_that_is_no_buffer_is_left_alone() {
    assert!(detect_string_bytes(0).is_none());
    assert!(detect_string_bytes(-1).is_none());
}

// ---- applying a gesture ------------------------------------------

fn a_screen() -> Screen {
    // A 6912-byte screen: every attribute cell a different colour, so a
    // palette or invert change has something to change.
    let mut bytes = vec![0u8; 6912];
    for (i, b) in bytes[6144..].iter_mut().enumerate() {
        *b = (i % 128) as u8;
    }
    for (i, b) in bytes[..6144].iter_mut().enumerate() {
        *b = (i % 251) as u8;
    }
    Screen::parse(&bytes).expect("6912 bytes is a screen")
}

/// A viewer opened with nothing saved: the default zoom and border.
fn fresh(mono: bool) -> State {
    State::new(a_screen(), mono, None, BorderMode::Dominant)
}

#[test]
fn every_gesture_changes_what_it_says_it_changes() {
    let mut st = fresh(false);

    let pal0 = st.pal();
    assert!(apply_action(&mut st, Action::NextPalette));
    assert_ne!(st.pal(), pal0);

    assert!(apply_action(&mut st, Action::Palette(0)));
    assert_eq!(st.pal(), 0);

    assert!(apply_action(&mut st, Action::Zoom(5)));
    assert_eq!(st.scale(), 5);
    // Out of range is clamped rather than refused: the shells pass a
    // window size through here.
    assert!(apply_action(&mut st, Action::Zoom(99)));
    assert_eq!(st.scale(), 6);
    assert!(apply_action(&mut st, Action::Zoom(0)));
    assert_eq!(st.scale(), 1);

    assert!(apply_action(&mut st, Action::BorderFixed(3)));
    assert!(matches!(st.border_mode(), BorderMode::Fixed(3)));
    // Only the low three bits are a ZX colour.
    assert!(apply_action(&mut st, Action::BorderFixed(0xFF)));
    assert!(matches!(st.border_mode(), BorderMode::Fixed(7)));
    assert!(apply_action(&mut st, Action::BorderDominant));
    assert!(matches!(st.border_mode(), BorderMode::Dominant));

    let inv = st.invert();
    assert!(apply_action(&mut st, Action::ToggleInvert));
    assert_ne!(st.invert(), inv);
}

#[test]
fn a_palette_that_does_not_exist_changes_nothing() {
    let mut st = fresh(false);
    let before = st.pal();
    // False means "nothing changed", which is how the shell knows not to
    // repaint.
    assert!(!apply_action(&mut st, Action::Palette(9999)));
    assert_eq!(st.pal(), before);
}

#[test]
fn a_gesture_that_repeats_the_view_changes_nothing() {
    let mut st = fresh(false);
    let frame = st.render().pixels.clone();
    assert!(!apply_action(&mut st, Action::Palette(0)));
    assert!(!apply_action(&mut st, Action::Zoom(2)));
    assert!(!apply_action(&mut st, Action::BorderDominant));
    assert_eq!(st.render().pixels, frame);
    assert!(apply_action(&mut st, Action::BorderFixed(2)));
    assert!(!apply_action(&mut st, Action::BorderFixed(10)));
    assert!(matches!(st.border_mode(), BorderMode::Fixed(2)));
}

#[test]
fn cycle_means_different_things_on_a_mono_screen() {
    // Colour: three attribute modes, and it comes back round.
    let mut colour = fresh(false);
    let m0 = colour.mode();
    apply_action(&mut colour, Action::Cycle);
    assert_ne!(colour.mode(), m0);
    apply_action(&mut colour, Action::Cycle);
    apply_action(&mut colour, Action::Cycle);
    assert_eq!(colour.mode(), m0, "three cycles return to the start");

    // Mono: there are no attributes, so it toggles brightness instead
    // and leaves the attribute mode exactly where it was.
    let mut mono = fresh(true);
    let b0 = mono.bright();
    let mode0 = mono.mode();
    apply_action(&mut mono, Action::Cycle);
    assert_ne!(mono.bright(), b0);
    assert_eq!(mono.mode(), mode0, "a mono screen has no attribute mode to cycle");
    apply_action(&mut mono, Action::Cycle);
    assert_eq!(mono.bright(), b0, "and it toggles back");
}

// ---- the settings text -------------------------------------------

#[test]
fn a_setting_written_is_a_setting_read_back() {
    let text = with_setting("", "screen_scale", "4", "\n");
    assert_eq!(setting_in(&text, "screen_scale").as_deref(), Some("4"));
    assert_eq!(setting_in(&text, "screen_scale").and_then(|v| parse_scale(&v)), Some(4));

    // Rewriting replaces the line rather than adding a second one, which
    // would leave the file saying two different things.
    let text = with_setting(&text, "screen_scale", "2", "\n");
    assert_eq!(setting_in(&text, "screen_scale").and_then(|v| parse_scale(&v)), Some(2));
    assert_eq!(text.matches("screen_scale").count(), 1, "{}", text);
}

#[test]
fn writing_one_setting_leaves_the_rest_of_the_file_alone() {
    let before = "# the shared settings file\n\
                  [zxdisk]\n\
                  ext_mode=dot\n\
                  something_this_build_never_heard_of=7\n";
    let after = with_setting(before, "screen_scale", "3", "\n");
    assert!(after.contains("# the shared settings file"), "{after}");
    assert!(after.contains("[zxdisk]"), "{after}");
    assert!(after.contains("ext_mode=dot"), "{after}");
    assert!(after.contains("something_this_build_never_heard_of=7"), "{after}");
    assert!(after.contains("screen_scale=3"), "{after}");
}

#[test]
fn a_setting_outside_its_range_is_no_setting_at_all() {
    // Zoom is 1..6. Anything else is somebody's hand-edit and the
    // viewer falls back to its default rather than to a 400x window.
    for bad in ["0", "7", "-1", "999", "two", ""] {
        let text = with_setting("", "screen_scale", bad, "\n");
        let got = setting_in(&text, "screen_scale").and_then(|v| parse_scale(&v));
        assert_eq!(got, None, "screen_scale={bad}");
    }
    let text = with_setting("", "screen_scale", "6", "\n");
    assert_eq!(setting_in(&text, "screen_scale").and_then(|v| parse_scale(&v)), Some(6));
}

#[test]
fn the_border_setting_round_trips_through_both_of_its_shapes() {
    let text = with_setting("", "screen_border_color", &border_value(BorderMode::Dominant), "\n");
    let v = setting_in(&text, "screen_border_color");
    assert!(matches!(parse_border(v.as_deref()), BorderMode::Dominant));
    for c in 0u8..8 {
        let text = with_setting("", "screen_border_color", &border_value(BorderMode::Fixed(c)), "\n");
        let v = setting_in(&text, "screen_border_color");
        match parse_border(v.as_deref()) {
            BorderMode::Fixed(got) => assert_eq!(got, c),
            other => panic!("colour {c} came back as {other:?}"),
        }
    }
}

#[test]
fn zoom_and_border_survive_the_viewer_being_closed() {
    // The gesture names the setting it changes; the shell writes it to the
    // settings file, which is what makes the choice stick for the next file.
    let mut st = fresh(false);
    let mut text = String::new();
    for a in [Action::Zoom(4), Action::BorderFixed(2)] {
        apply_action(&mut st, a);
        let (k, v) = setting_for(a, &st).expect("zoom and border are saved");
        text = with_setting(&text, &k, &v, "\n");
    }
    assert!(setting_for(Action::ToggleInvert, &st).is_none());
    assert_eq!(setting_in(&text, "screen_scale").and_then(|v| parse_scale(&v)), Some(4));
    let v = setting_in(&text, "screen_border_color");
    assert!(matches!(parse_border(v.as_deref()), BorderMode::Fixed(2)));
    assert!(text.contains("screen_scale=4"), "{}", text);
}

// ---- the native key maps -----------------------------------------

#[test]
fn key_maps_agree_on_the_digit_row() {
    // Windows VK '3', Qt scan 12 (xkb digit 3), macOS key code 0x14.
    assert_eq!(win_key_action(0x33, false, false), Some(Action::Palette(2)));
    assert_eq!(qt_key_action(0, 12, 0x33), Some(Action::Palette(2)));
    assert_eq!(mac_key_action(0x14, false, false, false), Some(Action::Palette(2)));
    // Shift+3 is zoom 3 everywhere.
    assert_eq!(win_key_action(0x33, true, false), Some(Action::Zoom(3)));
    assert_eq!(qt_key_action(0x0200_0000, 12, 0x23), Some(Action::Zoom(3)));
    assert_eq!(mac_key_action(0x14, false, true, false), Some(Action::Zoom(3)));
}

#[test]
fn space_and_enter_are_left_to_the_host_under_alt() {
    assert_eq!(win_key_action(0x20, false, false), Some(Action::ToggleInvert));
    assert_eq!(win_key_action(0x0D, false, false), Some(Action::Cycle));
    assert_eq!(win_key_action(0x20, false, true), None);
    assert_eq!(win_key_action(0x0D, false, true), None);
    assert_eq!(qt_key_action(0, 65, 0x20), Some(Action::ToggleInvert));
    assert_eq!(qt_key_action(0x0800_0000, 65, 0x20), None);
    assert_eq!(qt_key_action(0, 0, 0x0100_0005), Some(Action::Cycle));
    assert_eq!(mac_key_action(0x31, false, false, false), Some(Action::ToggleInvert));
    assert_eq!(mac_key_action(0x4C, false, false, true), None);
    // Command is never one of the viewer's chords.
    assert_eq!(mac_key_action(0x12, true, false, false), None);
    // The numpad is not the digit row.
    assert_eq!(win_key_action(0x61, false, false), None);
}

#[test]
fn two_flash_ticks_bring_back_the_frame() {
    let mut st = fresh(false);
    let first = st.render().pixels.clone();
    let phase = st.phase();
    st.tick();
    assert_ne!(st.phase(), phase);
    st.tick();
    assert_eq!(st.phase(), phase);
    assert_eq!(st.render().pixels, first);
}

#[test]
fn one_tick_keeps_the_frame_of_a_screen_without_flash() {
    let mut st = fresh(false);
    assert!(!st.has_flash());
    let first = st.render().pixels.clone();
    st.tick();
    assert_eq!(st.render().pixels, first);
}

#[test]
fn windows_repeats_and_alt_digit_characters() {
    assert!(is_auto_repeat(1 << 30));
    assert!(is_auto_repeat(0x4000_0001));
    assert!(!is_auto_repeat(1));
    assert!(!is_auto_repeat(1 << 31));
    assert!(swallows_syschar(0x30));
    assert!(swallows_syschar(0x39));
    assert!(!swallows_syschar(0x20));
    // Cyrillic а..й share the low byte of the digits and stay menu mnemonics.
    assert!(!swallows_syschar(0x430));
    assert!(!swallows_syschar(0x439));
}

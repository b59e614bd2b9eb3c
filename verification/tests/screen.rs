//! The screen decoder and renderer: formats, pixel layout, attributes,
//! FLASH, BRIGHT, inversion, borders and zoom.
use zxdisk::screen::{
    detect, named_palettes, palette_by_name, RenderOpts, Screen, ScreenFormat, BITMAP_LEN,
    PAL_ATM, PAL_PULSAR, SCREEN_LEN, SCREEN_W,
};

fn opts(scale: u32, border: u32) -> RenderOpts {
    RenderOpts { scale, border, ..RenderOpts::default() }
}

#[test]
fn screen_detect_by_length() {
    assert_eq!(detect(6912), Some(ScreenFormat::WithAttributes));
    assert_eq!(detect(6144), Some(ScreenFormat::BitmapOnly));
    assert_eq!(detect(6913), None);
    assert_eq!(detect(0), None);
}

#[test]
fn screen_top_left_pixel_uses_ink_then_paper() {
    let mut b = vec![0u8; SCREEN_LEN];
    b[0] = 0x80; // pixel (0,0) on, (1,0) off
    b[BITMAP_LEN] = (1 << 3) | 7; // cell(0,0): paper=1 blue, ink=7 white
    let s = Screen::parse(&b).unwrap();
    let img = s.render(false, &opts(1, 0));
    assert_eq!(&img.pixels[0..3], &PAL_PULSAR[7]); // on -> white ink
    assert_eq!(&img.pixels[4..7], &PAL_PULSAR[1]); // off -> blue paper
}

#[test]
fn screen_bitmap_only_is_white_on_black() {
    let mut b = vec![0u8; BITMAP_LEN];
    b[0] = 0x80;
    let s = Screen::parse(&b).unwrap();
    assert!(!s.has_flash());
    let img = s.render(false, &opts(1, 0));
    assert_eq!(&img.pixels[0..3], &PAL_PULSAR[7]); // ink white
    assert_eq!(&img.pixels[4..7], &PAL_PULSAR[0]); // paper black
}

#[test]
fn screen_flash_swaps_ink_and_paper() {
    let mut b = vec![0u8; SCREEN_LEN];
    b[0] = 0x80;
    b[BITMAP_LEN] = 0x80 | (1 << 3) | 7; // flash, paper=1 blue, ink=7 white
    let s = Screen::parse(&b).unwrap();
    assert!(s.has_flash());
    let off = s.render(false, &opts(1, 0));
    let on = s.render(true, &opts(1, 0));
    assert_eq!(&off.pixels[0..3], &PAL_PULSAR[7]); // normal: ink white
    assert_eq!(&on.pixels[0..3], &PAL_PULSAR[1]); // flashed: paper blue
}

#[test]
fn screen_bright_maps_to_upper_palette_half() {
    // A bright red ink cell, pixel on -> palette[2 + 8].
    let mut b = vec![0u8; SCREEN_LEN];
    b[0] = 0x80;
    b[BITMAP_LEN] = 0x40 | 2; // bright, ink=2 red, paper=0
    let s = Screen::parse(&b).unwrap();
    let img = s.render(false, &opts(1, 0));
    assert_eq!(&img.pixels[0..3], &PAL_PULSAR[10]); // bright red
    // bright black paper still black
    assert_eq!(&img.pixels[4..7], &PAL_PULSAR[8]);
    assert_eq!(PAL_PULSAR[8], [0, 0, 0]);
}

#[test]
fn screen_invert_flips_mono_ink_and_paper() {
    let mut b = vec![0u8; BITMAP_LEN]; // 6144: white on black by default
    b[0] = 0x80; // pixel (0,0) on
    let s = Screen::parse(&b).unwrap();
    let o = RenderOpts { invert: true, ..opts(1, 0) };
    let img = s.render(false, &o);
    assert_eq!(&img.pixels[0..3], &PAL_PULSAR[0]); // on -> now black ink
    assert_eq!(&img.pixels[4..7], &PAL_PULSAR[7]); // off -> now white paper
}

#[test]
fn screen_mono_mode_ignores_attributes() {
    // A colour screen rendered with mono=true is plain white-on-black.
    let mut b = vec![0u8; SCREEN_LEN];
    b[0] = 0x80; // pixel (0,0) on
    b[BITMAP_LEN] = (2 << 3) | 4; // cell(0,0): paper=2 red, ink=4 green (ignored in mono)
    let s = Screen::parse(&b).unwrap();
    let o = RenderOpts { mono: true, force_bright: Some(false), ..opts(1, 0) };
    let img = s.render(false, &o);
    assert_eq!(&img.pixels[0..3], &PAL_PULSAR[7]); // on -> white (not green)
    assert_eq!(&img.pixels[4..7], &PAL_PULSAR[0]); // off -> black (not red)
}

#[test]
fn screen_force_bright_overrides_attribute() {
    let mut b = vec![0u8; SCREEN_LEN];
    b[0] = 0x80;
    b[BITMAP_LEN] = 7; // white ink, no bright bit
    let s = Screen::parse(&b).unwrap();
    let on = s.render(false, &RenderOpts { force_bright: Some(true), ..opts(1, 0) });
    assert_eq!(&on.pixels[0..3], &PAL_PULSAR[15]); // forced bright white
    let off = s.render(false, &RenderOpts { force_bright: Some(false), ..opts(1, 0) });
    assert_eq!(&off.pixels[0..3], &PAL_PULSAR[7]); // forced normal white
}

#[test]
fn screen_border_colour_applies() {
    let s = Screen::parse(&vec![0u8; SCREEN_LEN]).unwrap();
    let img = s.render(false, &RenderOpts { border_rgb: PAL_PULSAR[7], ..opts(1, 8) });
    assert_eq!(img.border, PAL_PULSAR[7]);
    assert_eq!(&img.pixels[0..3], &PAL_PULSAR[7]); // border corner is the set colour
}

#[test]
fn screen_dominant_border_picks_most_common_colour() {
    // Whole bitmap off -> every pixel is paper; set paper = red (2).
    let mut b = vec![0u8; SCREEN_LEN];
    for c in b[BITMAP_LEN..SCREEN_LEN].iter_mut() {
        *c = 2 << 3; // paper=2 red, ink=0
    }
    let s = Screen::parse(&b).unwrap();
    let img = s.render(false, &RenderOpts { border_dominant: true, ..opts(1, 4) });
    assert_eq!(img.border, PAL_PULSAR[2]); // dominant colour is red
    assert_eq!(&img.pixels[0..3], &PAL_PULSAR[2]); // border corner painted red
}

#[test]
fn screen_thirds_interleave_second_band() {
    // y=64 is the first line of the middle third -> byte offset 2048.
    let mut b = vec![0u8; SCREEN_LEN];
    b[2048] = 0x80; // pixel (0,64)
    b[BITMAP_LEN + (64 >> 3) * 32] = 0x07; // that cell: white on black
    let s = Screen::parse(&b).unwrap();
    let img = s.render(false, &opts(1, 0));
    let o = (64 * SCREEN_W) * 4;
    assert_eq!(&img.pixels[o..o + 3], &PAL_PULSAR[7]);
}

#[test]
fn screen_border_and_scale_dimensions() {
    let s = Screen::parse(&vec![0u8; SCREEN_LEN]).unwrap();
    let img = s.render(false, &opts(2, 32));
    assert_eq!(img.width, (256 + 64) * 2);
    assert_eq!(img.height, (192 + 64) * 2);
    assert_eq!(img.pixels.len(), (img.width * img.height * 4) as usize);
    assert_eq!(&img.pixels[0..4], &[0, 0, 0, 255]); // border corner: opaque black
}

#[test]
fn screen_default_opts_and_palettes() {
    let o = RenderOpts::default();
    assert_eq!((o.scale, o.border), (2, 32));
    assert_eq!(named_palettes().len(), 7);
    assert_eq!(palette_by_name("PULSAR").unwrap(), &PAL_PULSAR); // by value
    assert_eq!(palette_by_name(" atm ").unwrap(), &PAL_ATM);
    assert!(palette_by_name("nope").is_none());
}

#[test]
fn tests_detect_by_length() {
    assert_eq!(detect(6912), Some(ScreenFormat::WithAttributes));
    assert_eq!(detect(6144), Some(ScreenFormat::BitmapOnly));
    assert_eq!(detect(6913), None);
    assert_eq!(detect(0), None);
}

#[test]
fn tests_top_left_pixel_uses_ink_then_paper() {
    let mut b = vec![0u8; SCREEN_LEN];
    b[0] = 0x80; // pixel (0,0) on, (1,0) off
    b[BITMAP_LEN] = (1 << 3) | 7; // cell(0,0): paper=1 blue, ink=7 white
    let s = Screen::parse(&b).unwrap();
    let img = s.render(false, &opts(1, 0));
    assert_eq!(&img.pixels[0..3], &PAL_PULSAR[7]); // on -> white ink
    assert_eq!(&img.pixels[4..7], &PAL_PULSAR[1]); // off -> blue paper
}

#[test]
fn tests_bitmap_only_is_white_on_black() {
    let mut b = vec![0u8; BITMAP_LEN];
    b[0] = 0x80;
    let s = Screen::parse(&b).unwrap();
    assert!(!s.has_flash());
    let img = s.render(false, &opts(1, 0));
    assert_eq!(&img.pixels[0..3], &PAL_PULSAR[7]); // ink white
    assert_eq!(&img.pixels[4..7], &PAL_PULSAR[0]); // paper black
}

#[test]
fn tests_flash_swaps_ink_and_paper() {
    let mut b = vec![0u8; SCREEN_LEN];
    b[0] = 0x80;
    b[BITMAP_LEN] = 0x80 | (1 << 3) | 7; // flash, paper=1 blue, ink=7 white
    let s = Screen::parse(&b).unwrap();
    assert!(s.has_flash());
    let off = s.render(false, &opts(1, 0));
    let on = s.render(true, &opts(1, 0));
    assert_eq!(&off.pixels[0..3], &PAL_PULSAR[7]); // normal: ink white
    assert_eq!(&on.pixels[0..3], &PAL_PULSAR[1]); // flashed: paper blue
}

#[test]
fn tests_bright_maps_to_upper_palette_half() {
    // A bright red ink cell, pixel on -> palette[2 + 8].
    let mut b = vec![0u8; SCREEN_LEN];
    b[0] = 0x80;
    b[BITMAP_LEN] = 0x40 | 2; // bright, ink=2 red, paper=0
    let s = Screen::parse(&b).unwrap();
    let img = s.render(false, &opts(1, 0));
    assert_eq!(&img.pixels[0..3], &PAL_PULSAR[10]); // bright red
    // bright black paper still black
    assert_eq!(&img.pixels[4..7], &PAL_PULSAR[8]);
    assert_eq!(PAL_PULSAR[8], [0, 0, 0]);
}

#[test]
fn tests_invert_flips_mono_ink_and_paper() {
    let mut b = vec![0u8; BITMAP_LEN]; // 6144: white on black by default
    b[0] = 0x80; // pixel (0,0) on
    let s = Screen::parse(&b).unwrap();
    let o = RenderOpts { invert: true, ..opts(1, 0) };
    let img = s.render(false, &o);
    assert_eq!(&img.pixels[0..3], &PAL_PULSAR[0]); // on -> now black ink
    assert_eq!(&img.pixels[4..7], &PAL_PULSAR[7]); // off -> now white paper
}

#[test]
fn tests_mono_mode_ignores_attributes() {
    // A colour screen rendered with mono=true is plain white-on-black.
    let mut b = vec![0u8; SCREEN_LEN];
    b[0] = 0x80; // pixel (0,0) on
    b[BITMAP_LEN] = (2 << 3) | 4; // cell(0,0): paper=2 red, ink=4 green (ignored in mono)
    let s = Screen::parse(&b).unwrap();
    let o = RenderOpts { mono: true, force_bright: Some(false), ..opts(1, 0) };
    let img = s.render(false, &o);
    assert_eq!(&img.pixels[0..3], &PAL_PULSAR[7]); // on -> white (not green)
    assert_eq!(&img.pixels[4..7], &PAL_PULSAR[0]); // off -> black (not red)
}

#[test]
fn tests_force_bright_overrides_attribute() {
    let mut b = vec![0u8; SCREEN_LEN];
    b[0] = 0x80;
    b[BITMAP_LEN] = 7; // white ink, no bright bit
    let s = Screen::parse(&b).unwrap();
    let on = s.render(false, &RenderOpts { force_bright: Some(true), ..opts(1, 0) });
    assert_eq!(&on.pixels[0..3], &PAL_PULSAR[15]); // forced bright white
    let off = s.render(false, &RenderOpts { force_bright: Some(false), ..opts(1, 0) });
    assert_eq!(&off.pixels[0..3], &PAL_PULSAR[7]); // forced normal white
}

#[test]
fn tests_border_colour_applies() {
    let s = Screen::parse(&vec![0u8; SCREEN_LEN]).unwrap();
    let img = s.render(false, &RenderOpts { border_rgb: PAL_PULSAR[7], ..opts(1, 8) });
    assert_eq!(img.border, PAL_PULSAR[7]);
    assert_eq!(&img.pixels[0..3], &PAL_PULSAR[7]); // border corner is the set colour
}

#[test]
fn tests_dominant_border_picks_most_common_colour() {
    // Whole bitmap off -> every pixel is paper; set paper = red (2).
    let mut b = vec![0u8; SCREEN_LEN];
    for c in b[BITMAP_LEN..SCREEN_LEN].iter_mut() {
        *c = 2 << 3; // paper=2 red, ink=0
    }
    let s = Screen::parse(&b).unwrap();
    let img = s.render(false, &RenderOpts { border_dominant: true, ..opts(1, 4) });
    assert_eq!(img.border, PAL_PULSAR[2]); // dominant colour is red
    assert_eq!(&img.pixels[0..3], &PAL_PULSAR[2]); // border corner painted red
}

#[test]
fn tests_thirds_interleave_second_band() {
    // y=64 is the first line of the middle third -> byte offset 2048.
    let mut b = vec![0u8; SCREEN_LEN];
    b[2048] = 0x80; // pixel (0,64)
    b[BITMAP_LEN + (64 >> 3) * 32] = 0x07; // that cell: white on black
    let s = Screen::parse(&b).unwrap();
    let img = s.render(false, &opts(1, 0));
    let o = (64 * SCREEN_W) * 4;
    assert_eq!(&img.pixels[o..o + 3], &PAL_PULSAR[7]);
}

#[test]
fn tests_border_and_scale_dimensions() {
    let s = Screen::parse(&vec![0u8; SCREEN_LEN]).unwrap();
    let img = s.render(false, &opts(2, 32));
    assert_eq!(img.width, (256 + 64) * 2);
    assert_eq!(img.height, (192 + 64) * 2);
    assert_eq!(img.pixels.len(), (img.width * img.height * 4) as usize);
    assert_eq!(&img.pixels[0..4], &[0, 0, 0, 255]); // border corner: opaque black
}

#[test]
fn tests_default_opts_and_palettes() {
    let o = RenderOpts::default();
    assert_eq!((o.scale, o.border), (2, 32));
    assert_eq!(named_palettes().len(), 7);
    assert_eq!(palette_by_name("PULSAR").unwrap(), &PAL_PULSAR); // by value
    assert_eq!(palette_by_name(" atm ").unwrap(), &PAL_ATM);
    assert!(palette_by_name("nope").is_none());
}

#[test]
fn screen_dominant_border_counts_bright_black_as_black() {
    // 250 cells of black paper, 250 of bright black paper, 268 of blue paper:
    // black covers 500 cells, more than blue.
    let mut b = vec![0u8; SCREEN_LEN];
    for (i, c) in b[BITMAP_LEN..SCREEN_LEN].iter_mut().enumerate() {
        *c = if i < 250 {
            0
        } else if i < 500 {
            0x40
        } else {
            1 << 3
        };
    }
    let s = Screen::parse(&b).unwrap();
    let img = s.render(false, &RenderOpts { border_dominant: true, ..opts(1, 4) });
    assert_eq!(img.border, PAL_PULSAR[0]);
}

/// A screen with some of everything: a bitmap pattern and varied attributes.
fn busy_bytes() -> Vec<u8> {
    let mut b = vec![0u8; SCREEN_LEN];
    for (i, c) in b[..BITMAP_LEN].iter_mut().enumerate() {
        *c = (i * 37 % 251) as u8;
    }
    for (i, c) in b[BITMAP_LEN..].iter_mut().enumerate() {
        *c = (i * 13 % 128) as u8;
    }
    b
}

fn px(img: &zxdisk::screen::Rgba, x: usize, y: usize) -> [u8; 4] {
    let o = (y * img.width as usize + x) * 4;
    [img.pixels[o], img.pixels[o + 1], img.pixels[o + 2], img.pixels[o + 3]]
}

#[test]
fn screen_zoom_is_nearest_neighbour() {
    let s = Screen::parse(&busy_bytes()).unwrap();
    let one = s.render(false, &RenderOpts { border_dominant: true, ..opts(1, 4) });
    let three = s.render(false, &RenderOpts { border_dominant: true, ..opts(3, 4) });
    assert_eq!(three.width, one.width * 3);
    assert_eq!(three.height, one.height * 3);
    assert_eq!(three.border, one.border);
    for (x, y) in [(0, 0), (13, 29), (100, 77), (791, 599), (400, 300)] {
        assert_eq!(px(&three, x, y), px(&one, x / 3, y / 3), "{x} {y}");
    }
}

#[test]
fn screen_invert_is_the_complemented_bitmap() {
    let b = busy_bytes();
    let mut c = b.clone();
    for x in c[..BITMAP_LEN].iter_mut() {
        *x = !*x;
    }
    let s = Screen::parse(&b).unwrap();
    let t = Screen::parse(&c).unwrap();
    for flash_on in [false, true] {
        let r = s.render(flash_on, &RenderOpts { invert: true, border_dominant: true, ..opts(2, 8) });
        let r2 = t.render(flash_on, &RenderOpts { invert: false, border_dominant: true, ..opts(2, 8) });
        assert_eq!(r.pixels, r2.pixels);
        assert_eq!(r.border, r2.border);
    }
}

#[test]
fn screen_without_flash_renders_alike_in_both_phases() {
    let mut b = busy_bytes();
    for c in b[BITMAP_LEN..].iter_mut() {
        *c &= 0x7F;
    }
    let s = Screen::parse(&b).unwrap();
    assert!(!s.has_flash());
    let on = s.render(true, &RenderOpts { border_dominant: true, ..opts(1, 4) });
    let off = s.render(false, &RenderOpts { border_dominant: true, ..opts(1, 4) });
    assert_eq!(on.pixels, off.pixels);
    assert_eq!(on.border, off.border);
}

use pi_slideshow::canvas::{Canvas, Px, black};
use pi_slideshow::easing::{ease_cubic, ease_in, ease_in_out, ease_out, ease_sine, sin_half};
use pi_slideshow::loader::{
    ImageError, Orientation, compose_centered, has_image_extension, load_and_compose,
    scaled_dimensions,
};
use pi_slideshow::text::{
    add_transition_text, create_info_placeholder, exit_joke_canvas, get_random_joke, joke_at,
    split_words, wrap_text,
};
use pi_slideshow::transition::{
    TransitionType, apply_easing, create_transition_frame, frame_count, progress_pm,
};


fn canvas_of(width: u32, height: u32, p: Px) -> Canvas {
    let mut data = Vec::new();
    for _ in 0..(width * height) {
        data.push(p.r);
        data.push(p.g);
        data.push(p.b);
        data.push(p.a);
    }
    Canvas { width, height, data }
}

const RED: Px = Px { r: 200, g: 10, b: 20, a: 255 };
const BLUE: Px = Px { r: 5, g: 30, b: 250, a: 255 };

fn deterministic_kinds() -> Vec<TransitionType> {
    vec![
        TransitionType::Fade,
        TransitionType::SlideLeft,
        TransitionType::SlideRight,
        TransitionType::SlideUp,
        TransitionType::SlideDown,
        TransitionType::WipeLeft,
        TransitionType::WipeRight,
        TransitionType::WipeUp,
        TransitionType::WipeDown,
        TransitionType::Morph,
        TransitionType::Bounce,
        TransitionType::Elastic,
        TransitionType::EaseIn,
        TransitionType::EaseOut,
        TransitionType::EaseInOut,
        TransitionType::Accelerated,
        TransitionType::CircularWipe,
        TransitionType::DiagonalWipe,
    ]
}

#[test]
fn every_transition_starts_on_the_old_image() {
    let from = canvas_of(4, 3, RED);
    let to = canvas_of(4, 3, BLUE);
    let mut kinds = deterministic_kinds();
    kinds.push(TransitionType::Dissolve);
    // Pixelate's first frame samples block corners of the old image; on a
    // uniform canvas that is the old image too.
    kinds.push(TransitionType::Pixelate);
    for kind in kinds {
        let frame = create_transition_frame(&from, &to, 0, &kind);
        assert_eq!(frame.data, from.data, "kind {:?}", kind);
    }
}

#[test]
fn every_transition_ends_on_the_new_image() {
    let from = canvas_of(4, 3, RED);
    let to = canvas_of(4, 3, BLUE);
    let mut kinds = deterministic_kinds();
    kinds.push(TransitionType::Dissolve);
    kinds.push(TransitionType::Pixelate);
    for kind in kinds {
        let frame = create_transition_frame(&from, &to, 1000, &kind);
        assert_eq!(frame.data, to.data, "kind {:?}", kind);
    }
}

#[test]
fn dissolve_mixes_only_source_pixels() {
    let from = canvas_of(8, 8, RED);
    let to = canvas_of(8, 8, BLUE);
    let frame = create_transition_frame(&from, &to, 500, &TransitionType::Dissolve);
    for p in 0..64 {
        let px = (
            frame.data[4 * p],
            frame.data[4 * p + 1],
            frame.data[4 * p + 2],
            frame.data[4 * p + 3],
        );
        assert!(px == (RED.r, RED.g, RED.b, RED.a) || px == (BLUE.r, BLUE.g, BLUE.b, BLUE.a));
    }
}

#[test]
fn dissolve_midpoint_follows_expected_ratio() {
    // stochastic kind: assert the expected pixel-source ratio, not exact
    // output; 2500 independent draws at probability one half stay well
    // within 30 to 70 percent
    let from = canvas_of(50, 50, RED);
    let to = canvas_of(50, 50, BLUE);
    let frame = create_transition_frame(&from, &to, 500, &TransitionType::Dissolve);
    let mut new_count = 0u32;
    for p in 0..2500 {
        if frame.data[4 * p] == BLUE.r {
            new_count += 1;
        }
    }
    assert!(new_count > 750 && new_count < 1750, "got {new_count} of 2500");
}

#[test]
fn pixelate_blocks_are_uniform() {
    // at progress 500 the block side is 8; every pixel of a block must
    // equal the sample at the block's corner
    let mut from = canvas_of(32, 32, RED);
    let mut to = canvas_of(32, 32, BLUE);
    for y in 0..32u32 {
        for x in 0..32u32 {
            from.set_px(x, y, Px { r: x as u8, g: y as u8, b: 1, a: 255 });
            to.set_px(x, y, Px { r: x as u8, g: y as u8, b: 2, a: 255 });
        }
    }
    let frame = create_transition_frame(&from, &to, 500, &TransitionType::Pixelate);
    for y in 0..32u32 {
        for x in 0..32u32 {
            assert_eq!(frame.get_px(x, y), frame.get_px(x / 8 * 8, y / 8 * 8));
        }
    }
}

#[test]
fn fade_midpoint_blends_channels() {
    let from = canvas_of(1, 1, Px { r: 100, g: 0, b: 200, a: 255 });
    let to = canvas_of(1, 1, Px { r: 200, g: 100, b: 0, a: 255 });
    let frame = create_transition_frame(&from, &to, 500, &TransitionType::Fade);
    // (100 * 500 + 200 * 500) / 1000 = 150, and so on per channel
    assert_eq!(frame.data[0], 150);
    assert_eq!(frame.data[1], 50);
    assert_eq!(frame.data[2], 100);
    assert_eq!(frame.data[3], 255);
}

#[test]
fn wipe_left_boundary_at_midpoint() {
    let from = canvas_of(4, 1, RED);
    let to = canvas_of(4, 1, BLUE);
    let frame = create_transition_frame(&from, &to, 500, &TransitionType::WipeLeft);
    // columns 0 and 1 satisfy x * 1000 < 500 * 4 = 2000
    assert_eq!(frame.data[0], BLUE.r);
    assert_eq!(frame.data[4], BLUE.r);
    assert_eq!(frame.data[8], RED.r);
    assert_eq!(frame.data[12], RED.r);
}

#[test]
fn wipe_right_boundary_pixel_stays_on_old_image() {
    // the boundary tie: at progress 500 on a 4-wide canvas, column 2 sits
    // exactly on the sweep line and keeps the old image
    let from = canvas_of(4, 1, RED);
    let to = canvas_of(4, 1, BLUE);
    let frame = create_transition_frame(&from, &to, 500, &TransitionType::WipeRight);
    assert_eq!(frame.data[0], RED.r);
    assert_eq!(frame.data[4], RED.r);
    assert_eq!(frame.data[8], RED.r);
    assert_eq!(frame.data[12], BLUE.r);
    // at full progress the boundary is covered too
    let last = create_transition_frame(&from, &to, 1000, &TransitionType::WipeRight);
    assert_eq!(last.data, to.data);
}

#[test]
fn catalog_maps_every_index_to_its_kind() {
    assert_eq!(TransitionType::from_index(0), TransitionType::Fade);
    assert_eq!(TransitionType::from_index(1), TransitionType::Dissolve);
    assert_eq!(TransitionType::from_index(10), TransitionType::Morph);
    assert_eq!(TransitionType::from_index(17), TransitionType::CircularWipe);
    assert_eq!(TransitionType::from_index(19), TransitionType::Pixelate);
}

#[test]
fn frame_count_floors_at_one() {
    assert_eq!(frame_count(1500), 45);
    assert_eq!(frame_count(33), 1);
    assert_eq!(frame_count(0), 1);
    assert_eq!(frame_count(10), 1);
}

#[test]
fn progress_runs_from_zero_to_full() {
    assert_eq!(progress_pm(0, 45), 0);
    assert_eq!(progress_pm(44, 45), 1000);
    assert_eq!(progress_pm(22, 45), 500);
    assert_eq!(progress_pm(0, 1), 0);
}

#[test]
fn easing_curves_match_their_formulas() {
    assert_eq!(ease_in(500), 250);
    assert_eq!(ease_out(500), 750);
    assert_eq!(ease_in_out(500), 500);
    assert_eq!(ease_cubic(1000), 1000);
    assert_eq!(ease_cubic(100), 1);
    assert_eq!(sin_half(250), 1000);
    assert_eq!(ease_sine(0), 0);
    assert_eq!(ease_sine(1000), 1000);
    for kind in deterministic_kinds() {
        assert_eq!(apply_easing(0, &kind), 0, "kind {:?}", kind);
        assert_eq!(apply_easing(1000, &kind), 1000, "kind {:?}", kind);
    }
}

#[test]
fn transition_names_match_catalog() {
    assert_eq!(TransitionType::Fade.name(), "FADE");
    assert_eq!(TransitionType::Dissolve.name(), "DISSOLVE");
    assert_eq!(TransitionType::SlideLeft.name(), "SLIDE LEFT");
    assert_eq!(TransitionType::CircularWipe.name(), "CIRCULAR WIPE");
    assert_eq!(TransitionType::Pixelate.name(), "PIXELATE");
    assert_eq!(TransitionType::EaseInOut.name(), "EASE IN-OUT");
}

#[test]
fn random_transition_is_from_catalog() {
    for _ in 0..50 {
        let t = TransitionType::get_random();
        assert!(!t.name().is_empty());
    }
}

#[test]
fn canvas_rotate90_moves_pixels() {
    // two pixels side by side; rotated clockwise the left one ends on top
    let mut c = canvas_of(2, 1, RED);
    c.set_px(1, 0, BLUE);
    let r = c.rotate90();
    assert_eq!(r.width, 1);
    assert_eq!(r.height, 2);
    assert_eq!(r.get_px(0, 0), RED);
    assert_eq!(r.get_px(0, 1), BLUE);
}

#[test]
fn scaled_dimensions_preserve_aspect() {
    // 2:1 source into an 8x8 target: width-bound, 8x4
    assert_eq!(scaled_dimensions(200, 100, 8, 8), (8, 4));
    // 1:2 source into an 8x8 target: height-bound, 4x8
    assert_eq!(scaled_dimensions(100, 200, 8, 8), (4, 8));
    // extreme ratio never collapses to zero
    assert_eq!(scaled_dimensions(8000, 1, 8, 8), (8, 1));
}

#[test]
fn compose_centered_letterboxes_on_black() {
    let content = canvas_of(2, 2, RED);
    let out = compose_centered(&content, 6, 4);
    assert_eq!(out.width, 6);
    assert_eq!(out.height, 4);
    let b = black();
    for y in 0..4u32 {
        for x in 0..6u32 {
            let p = out.get_px(x, y);
            if (2..4).contains(&x) && (1..3).contains(&y) {
                assert_eq!(p, RED, "content at {},{}", x, y);
            } else {
                assert_eq!(p, b, "background at {},{}", x, y);
            }
        }
    }
}

fn png_bytes(width: u32, height: u32, px: Px) -> Vec<u8> {
    let img = image::RgbaImage::from_pixel(width, height, image::Rgba([px.r, px.g, px.b, px.a]));
    let mut bytes: Vec<u8> = Vec::new();
    let mut cursor = std::io::Cursor::new(&mut bytes);
    img.write_to(&mut cursor, image::ImageFormat::Png).unwrap();
    bytes
}

#[test]
fn load_and_compose_is_idempotent() {
    let bytes = png_bytes(3, 2, RED);
    let a = load_and_compose(&bytes, 10, 8, false).unwrap();
    let b = load_and_compose(&bytes, 10, 8, false).unwrap();
    assert_eq!(a.width, b.width);
    assert_eq!(a.height, b.height);
    assert_eq!(a.data, b.data);
}

#[test]
fn load_and_compose_letterboxes_decoded_image() {
    // a 1x1 source into a 8x4 target scales to 4x4 centered at x in 2..6
    let bytes = png_bytes(1, 1, Px { r: 250, g: 10, b: 10, a: 255 });
    let c = load_and_compose(&bytes, 8, 4, false).unwrap();
    assert_eq!(c.width, 8);
    assert_eq!(c.height, 4);
    let corner = c.get_px(0, 0);
    assert_eq!(corner, black());
    let middle = c.get_px(4, 2);
    assert!(middle.r > 200, "scaled content keeps its color, got {:?}", middle);
}

#[test]
fn load_and_compose_portrait_rotates_back_to_raster() {
    let bytes = png_bytes(4, 2, RED);
    let c = load_and_compose(&bytes, 8, 4, true).unwrap();
    // whatever the intermediate composition, the result matches the raster
    assert_eq!(c.width, 8);
    assert_eq!(c.height, 4);
}

#[test]
fn load_and_compose_rejects_garbage() {
    let r = load_and_compose(&[1, 2, 3, 4], 8, 8, false);
    match r {
        Err(e) => assert_eq!(e, ImageError::Decode),
        Ok(_) => panic!("garbage bytes must not decode"),
    }
}

#[test]
fn orientation_dimensions_and_labels() {
    assert_eq!(Orientation::Landscape.dimensions(), (1920, 1080));
    assert_eq!(Orientation::Portrait.dimensions(), (1080, 1920));
    assert_eq!(Orientation::from_label("PORTRAIT"), Orientation::Portrait);
    assert_eq!(Orientation::from_label("portrait"), Orientation::Portrait);
    assert_eq!(Orientation::from_label("landscape"), Orientation::Landscape);
    assert_eq!(Orientation::from_label("sideways"), Orientation::Landscape);
}

#[test]
fn wrap_text_greedy_fill() {
    let lines = wrap_text("hello world foo", 11);
    assert_eq!(lines, vec!["hello world".to_string(), "foo".to_string()]);
}

#[test]
fn wrap_text_exact_example() {
    assert_eq!(wrap_text("a bb ccc", 4), vec!["a bb".to_string(), "ccc".to_string()]);
}

#[test]
fn wrap_text_empty_and_blank() {
    assert!(wrap_text("", 10).is_empty());
    assert!(wrap_text("   \t ", 10).is_empty());
}

#[test]
fn wrap_text_keeps_long_words_whole() {
    let lines = wrap_text("a extraordinarily b", 5);
    assert_eq!(
        lines,
        vec!["a".to_string(), "extraordinarily".to_string(), "b".to_string()]
    );
}

#[test]
fn split_words_drops_blanks() {
    let words = split_words("  one\ttwo \n three ");
    assert_eq!(
        words,
        vec!["one".to_string(), "two".to_string(), "three".to_string()]
    );
}

#[test]
fn transition_label_overlay_paints_box() {
    let mut c = canvas_of(200, 50, RED);
    add_transition_text(&mut c, "FADE");
    // inside the label box: background or glyph yellow
    let bg = Px { r: 0, g: 0, b: 0, a: 180 };
    let fg = Px { r: 255, g: 255, b: 0, a: 255 };
    let mut saw_fg = false;
    for y in 0..36u32 {
        for x in 0..(4 * 32 + 16) as u32 {
            let p = c.get_px(x, y);
            assert!(p == bg || p == fg, "unexpected {:?} at {},{}", p, x, y);
            if p == fg {
                saw_fg = true;
            }
        }
    }
    assert!(saw_fg, "the label glyphs were drawn");
    // far away the frame is untouched
    assert_eq!(c.get_px(199, 49), RED);
}

#[test]
fn placeholder_uses_its_palette() {
    let c = create_info_placeholder("tv_demo", "192.168.0.9", 320, 240);
    assert_eq!(c.width, 320);
    assert_eq!(c.height, 240);
    let palette = [
        Px { r: 25, g: 25, b: 50, a: 255 },
        Px { r: 255, g: 255, b: 255, a: 255 },
        Px { r: 255, g: 255, b: 0, a: 255 },
        Px { r: 0, g: 255, b: 255, a: 255 },
        Px { r: 200, g: 200, b: 200, a: 255 },
    ];
    let mut non_bg = 0u32;
    for y in 0..240u32 {
        for x in 0..320u32 {
            let p = c.get_px(x, y);
            assert!(palette.contains(&p), "unexpected {:?} at {},{}", p, x, y);
            if p != palette[0] {
                non_bg += 1;
            }
        }
    }
    assert!(non_bg > 0, "some text was drawn");
}

#[test]
fn exit_screen_is_black_and_yellow() {
    let c = exit_joke_canvas(joke_at(4), 640, 200);
    let fg = Px { r: 255, g: 255, b: 0, a: 255 };
    let mut saw_fg = false;
    for y in 0..200u32 {
        for x in 0..640u32 {
            let p = c.get_px(x, y);
            assert!(p == black() || p == fg);
            if p == fg {
                saw_fg = true;
            }
        }
    }
    assert!(saw_fg);
}

#[test]
fn jokes_come_from_the_catalog() {
    let mut all = Vec::new();
    for i in 0..20u32 {
        all.push(joke_at(i));
    }
    for _ in 0..20 {
        assert!(all.contains(&get_random_joke()));
    }
}

#[test]
fn image_extensions_are_recognized_case_insensitively() {
    assert!(has_image_extension("photo.png"));
    assert!(has_image_extension("photo.JPG"));
    assert!(has_image_extension("photo.Jpeg"));
    assert!(!has_image_extension("photo.gif"));
    assert!(!has_image_extension("png"));
    assert!(!has_image_extension(""));
}

#[test]
fn load_and_compose_accepts_very_wide_images() {
    // source dimensions are unbounded; only the target is raster-sized
    let bytes = png_bytes(9000, 2, RED);
    let c = load_and_compose(&bytes, 8, 8, false).unwrap();
    assert_eq!(c.width, 8);
    assert_eq!(c.height, 8);
}

#[test]
fn load_and_compose_portrait_raster_composes_directly() {
    // a portrait-shaped raster takes the portrait composition as is
    let bytes = png_bytes(4, 2, RED);
    let c = load_and_compose(&bytes, 4, 8, true).unwrap();
    assert_eq!(c.width, 4);
    assert_eq!(c.height, 8);
}

use g6_control::canvas::{is_writable, Canvas, Color, Glyph};
use g6_control::letters::{place, Letter};
use g6_control::popup::{
    button_bits, popup_origin, slider_at, slider_x, track_bounds, work_area, Command, Pointer,
    Poll, Popup, PopupStep, SliderKind, WorkArea, LOGICAL_HEIGHT, LOGICAL_WIDTH, SPEAKER_X, MIC_X,
};
use g6_control::render::{
    high_caption, low_caption, name_caption, render_popup, title_caption, title_is_writable,
    volume_caption, Caption, Labels,
};
use g6_control::scale::{value_y, volume_from_y, Scale};
use g6_control::value::Value;

fn v(x: f32) -> Value {
    Value { bits: x.to_bits() }
}

fn f(value: Value) -> f32 {
    f32::from_bits(value.bits)
}

fn preview_font() -> fontdue::Font {
    fontdue::Font::from_bytes(
        epaint_default_fonts::UBUNTU_LIGHT,
        fontdue::FontSettings::default(),
    )
    .expect("embedded popup font")
}

fn letters(font: &fontdue::Font, text: &str, size: f32) -> Vec<Letter> {
    let mut list = Vec::new();
    let mut previous: Option<char> = None;
    for character in text.chars() {
        let kern = previous
            .and_then(|left| font.horizontal_kern(left, character, size))
            .map(v);
        let (metrics, bitmap) = font.rasterize(character, size);
        list.push(Letter {
            kern,
            xmin: metrics.xmin,
            ymin: metrics.ymin,
            width: metrics.width as u16,
            height: metrics.height as u16,
            advance: v(metrics.advance_width),
            bitmap,
        });
        previous = Some(character);
    }
    list
}

fn glyphs(font: &fontdue::Font, caption: &Caption, scale: f32) -> Vec<Glyph> {
    place(
        &letters(font, &caption.text, caption.size as f32 * scale),
        caption.center_x,
    )
}

fn labels(
    font: &fontdue::Font,
    kind: SliderKind,
    scale: f32,
    width: u16,
    value: f32,
) -> Labels {
    let s = Scale::new(v(scale));
    Labels {
        name: glyphs(font, &name_caption(kind, &s), scale),
        high: glyphs(font, &high_caption(kind, &s), scale),
        low: glyphs(font, &low_caption(kind, &s), scale),
        volume: glyphs(font, &volume_caption(kind, &s, width, v(value)), scale),
    }
}

fn drawn(scale: f32, speaker: f32, mic: f32, hovered: Option<SliderKind>) -> Canvas {
    let font = preview_font();
    let s = Scale::new(v(scale));
    let width = (LOGICAL_WIDTH as f32 * scale).round() as u16;
    let height = (LOGICAL_HEIGHT as f32 * scale).round() as u16;
    let title = glyphs(&font, &title_caption(&s, width), scale);
    let first = labels(&font, SliderKind::Speaker, scale, width, speaker);
    let second = labels(&font, SliderKind::Mic, scale, width, mic);
    assert!(title_is_writable(&title, &s) && first.are_writable(&s) && second.are_writable(&s));
    assert!(first.volume_is_writable(&s, height, v(speaker)));
    assert!(second.volume_is_writable(&s, height, v(mic)));
    render_popup(
        &s,
        width,
        height,
        v(speaker),
        v(mic),
        hovered,
        &title,
        &first,
        &second,
    )
}

fn pixel(canvas: &Canvas, x: usize, y: usize) -> Vec<u8> {
    let offset = (y * canvas.width() as usize + x) * 4;
    canvas.bytes()[offset..offset + 3].to_vec()
}

#[test]
fn popup_is_flush_with_bottom_right_of_work_area() {
    let area = WorkArea {
        x: 2,
        y: 2,
        width: 3836,
        height: 2086,
    };
    assert_eq!(popup_origin(area, 432, 576), (3406, 1512));
}

#[test]
fn popup_clamps_to_work_area_edges() {
    let area = WorkArea {
        x: 0,
        y: 0,
        width: 1000,
        height: 700,
    };
    assert_eq!(popup_origin(area, 240, 320), (760, 380));
}

#[test]
fn popup_larger_than_the_work_area_begins_at_its_corner() {
    let area = WorkArea {
        x: 7,
        y: 9,
        width: 100,
        height: 50,
    };
    assert_eq!(popup_origin(area, 432, 576), (7, 9));
    assert!(area.can_hold(432, 576));
    let far = WorkArea {
        x: i32::MAX,
        y: 0,
        width: 1,
        height: 1,
    };
    assert!(!far.can_hold(432, 576));
}

#[test]
fn vertical_slider_maps_endpoints_to_zero_and_one_fifty() {
    assert_eq!(f(volume_from_y(276, 88, 276)), 0.0);
    assert_eq!(f(volume_from_y(88, 88, 276)), 1.5);
    assert_eq!(value_y(v(0.0), 88, 276), 276);
    assert_eq!(value_y(v(1.5), 88, 276), 88);
}

#[test]
fn volumes_are_whole_percent() {
    for (top, bottom) in [(88, 276), (0, 7), (-3, 1000)] {
        for y in top - 20..bottom + 20 {
            let volume = f(volume_from_y(y, top, bottom));
            let n = (volume * 100.0).round();
            assert!((0.0..=150.0).contains(&n));
            assert_eq!(volume.to_bits(), (n / 100.0).to_bits());
        }
    }
}

#[test]
fn volumes_fall_from_the_highest_to_zero() {
    for (top, bottom) in [(88, 276), (0, 7), (-3, 1000)] {
        assert_eq!(f(volume_from_y(top - 5, top, bottom)), 1.5);
        assert_eq!(f(volume_from_y(bottom + 5, top, bottom)), 0.0);
        for y in top - 20..bottom + 20 {
            let here = f(volume_from_y(y, top, bottom));
            assert!(here >= f(volume_from_y(y + 1, top, bottom)));
        }
    }
}

#[test]
fn rows_are_read_back() {
    for (top, bottom) in [(88, 276), (0, 7), (-3, 1000), (0, 10_000), (5, 6)] {
        let share = 0.75 / (bottom - top) as f32;
        for n in 0..=300 {
            let volume = n as f32 / 200.0;
            let back = f(volume_from_y(value_y(v(volume), top, bottom), top, bottom));
            assert!((back - volume).abs() <= share + 0.0051);
        }
    }
}

#[test]
fn hovering_changes_the_bubble_alone() {
    let plain = drawn(1.0, 0.75, 0.3, None);
    for (kind, left) in [(SliderKind::Speaker, 78), (SliderKind::Mic, 58)] {
        let hovered = drawn(1.0, 0.75, 0.3, Some(kind));
        let volume = if kind == SliderKind::Speaker { 0.75 } else { 0.3 };
        let top = (value_y(v(volume), 88, 276) - 16) as usize;
        let mut changed = 0;
        for y in 0..320 {
            for x in 0..200 {
                if pixel(&plain, x, y) != pixel(&hovered, x, y) {
                    assert!(left <= x && x < left + 64 && top <= y && y < top + 32);
                    changed += 1;
                }
            }
        }
        assert!(changed > 0);
    }
}

#[test]
fn letters_have_to_fit() {
    let glyph = |start_x: i32, top: i32| Glyph {
        bitmap: vec![255; 4],
        start_x,
        top,
        width: 2,
        height: 2,
    };
    assert!(is_writable(&vec![], i32::MIN));
    assert!(is_writable(&vec![glyph(i32::MAX - 1, 0)], 0));
    assert!(!is_writable(&vec![glyph(i32::MAX, 0)], 0));
    assert!(is_writable(&vec![glyph(i32::MIN, 1_000_000_000)], 5));
    assert!(!is_writable(&vec![glyph(0, i32::MAX)], 5));
    assert!(!is_writable(&vec![glyph(0, 0)], i32::MIN));
    assert!(is_writable(&vec![glyph(0, 0)], i32::MAX));
    assert!(!is_writable(&vec![glyph(0, 0), glyph(0, i32::MIN)], i32::MIN));
    let short = Glyph {
        bitmap: vec![255; 3],
        ..glyph(0, 0)
    };
    assert!(!is_writable(&vec![short], 5));
    let mut canvas = Canvas::new(4, 4, Color::rgb(0, 0, 0));
    canvas.text_centered(&vec![glyph(1, 1_000_000_000)], 2, Color::rgb(9, 8, 7));
    assert_eq!(pixel(&canvas, 1, 1), [7, 8, 9]);
    assert_eq!(pixel(&canvas, 0, 1), [0, 0, 0]);
}

#[test]
fn rows_and_volumes_follow_the_numbers() {
    for y in -50..400 {
        for (top, bottom) in [(88, 276), (158, 497), (264, 828)] {
            let fraction = ((bottom - y) as f32 / (bottom - top) as f32).clamp(0.0, 1.0);
            let volume = (fraction * 1.5 * 100.0).round() / 100.0;
            assert_eq!(volume_from_y(y, top, bottom).bits, volume.to_bits());
            assert!((0.0..=1.5).contains(&volume));
            let part = (volume / 1.5).clamp(0.0, 1.0);
            let row = bottom - ((bottom - top) as f32 * part).round() as i32;
            assert_eq!(value_y(v(volume), top, bottom), row);
        }
    }
    assert!(volume_from_y(5, 5, 5).not_a_number());
    assert_eq!(f(volume_from_y(4, 5, 5)), 1.5);
    assert_eq!(value_y(v(f32::NAN), 88, 276), 276);
    assert_eq!(value_y(v(9.0), 88, 276), 88);
}

#[test]
fn pixels_follow_the_scale() {
    for factor in [0.2f32, 1.0, 1.25, 1.3, 1.5, 1.8, 2.0, 2.6, 3.0, 9.0] {
        let scale = Scale::new(v(factor));
        let used = factor.clamp(1.0, 3.0);
        assert_eq!(f(scale.factor()), used);
        for logical in 0..=320 {
            assert_eq!(scale.px(logical), (logical as f32 * used).round() as i32);
        }
    }
    let none = Scale::new(v(f32::NAN));
    assert!(none.factor().not_a_number());
    assert_eq!(none.px(320), 0);
    let popup = Popup::new(Scale::new(v(1.8)), v(0.5), v(0.25));
    assert_eq!((popup.width, popup.height), (360, 576));
    assert!(!popup.visible);
}

#[test]
fn production_renderer_draws_both_active_volume_rails() {
    let scale = 1.8;
    let width = (LOGICAL_WIDTH as f32 * scale).round() as u16;
    let height = (LOGICAL_HEIGHT as f32 * scale).round() as u16;
    let canvas = drawn(scale, 0.75, 1.5, Some(SliderKind::Speaker));
    assert_eq!(
        canvas.bytes().len(),
        width as usize * height as usize * 4
    );
    assert_eq!(pixel(&canvas, 10, 100), [244, 244, 244]);
    assert_eq!(
        pixel(&canvas, (SPEAKER_X as f32 * scale).round() as usize, 480),
        [222, 163, 72]
    );
    assert_eq!(
        pixel(&canvas, (MIC_X as f32 * scale).round() as usize, 300),
        [222, 163, 72]
    );
}

#[test]
fn renderer_draws_frame_tab_handle_and_bubble() {
    let canvas = drawn(1.0, 0.75, 1.5, Some(SliderKind::Speaker));
    assert_eq!((canvas.width(), canvas.height()), (200, 320));
    assert_eq!(pixel(&canvas, 0, 0), [150, 150, 150]);
    assert_eq!(pixel(&canvas, 199, 319), [150, 150, 150]);
    assert_eq!(pixel(&canvas, 20, 22), [150, 150, 150]);
    assert_eq!(pixel(&canvas, 71, 5), [150, 150, 150]);
    // The handle of a volume in the middle of its range stands in the middle of the track.
    assert_eq!(value_y(v(0.75), 88, 276), 182);
    assert_eq!(pixel(&canvas, 50, 182), [238, 238, 238]);
    assert_eq!(pixel(&canvas, 44, 182), [55, 55, 55]);
    assert_eq!(pixel(&canvas, 58, 120), [208, 208, 208]);
    // The bubble stands to the right of the speaker's slider.
    assert_eq!(pixel(&canvas, 78, 166), [150, 150, 150]);
    assert_eq!(pixel(&canvas, 80, 168), [252, 252, 252]);
    let plain = drawn(1.0, 0.75, 1.5, None);
    assert_eq!(pixel(&plain, 80, 168), [244, 244, 244]);
}

#[test]
fn captions_name_what_is_shown() {
    let s = Scale::new(v(1.0));
    assert_eq!(title_caption(&s, 200).text, "G6");
    assert_eq!(title_caption(&s, 200).center_x, 100);
    assert_eq!(name_caption(SliderKind::Speaker, &s).text, "Speaker");
    assert_eq!(name_caption(SliderKind::Mic, &s).text, "Mic");
    assert_eq!(high_caption(SliderKind::Mic, &s).text, "150%");
    assert_eq!(low_caption(SliderKind::Mic, &s).text, "0%");
    let speaker = volume_caption(SliderKind::Speaker, &s, 200, v(0.94));
    assert_eq!((speaker.text.as_str(), speaker.size, speaker.center_x), ("94%", 18, 110));
    let mic = volume_caption(SliderKind::Mic, &s, 200, v(2.0));
    assert_eq!((mic.text.as_str(), mic.center_x), ("150%", 90));
}

#[test]
fn letters_are_centred_at_their_column() {
    let font = preview_font();
    for (text, size, center_x) in [("Speaker", 32.4f32, 104), ("150%", 28.8, 256), ("G6", 15.0, 100)] {
        let list = letters(&font, text, size);
        let mut pen = 0.0f32;
        let mut min_x = f32::INFINITY;
        let mut max_x = f32::NEG_INFINITY;
        let mut lefts = Vec::new();
        for (i, letter) in list.iter().enumerate() {
            if i > 0 {
                pen += letter.kern.map_or(0.0, f);
            }
            let left = pen + letter.xmin as f32;
            min_x = min_x.min(left);
            max_x = max_x.max(left + letter.width as f32);
            lefts.push(left);
            pen += f(letter.advance);
        }
        let offset = center_x as f32 - (min_x + max_x) / 2.0;
        let placed = place(&list, center_x);
        assert_eq!(placed.len(), text.chars().count());
        for (i, glyph) in placed.iter().enumerate() {
            assert_eq!(glyph.start_x, (offset + lefts[i]).round() as i32);
            assert_eq!(glyph.top, -list[i].ymin - list[i].height as i32);
            assert_eq!(glyph.bitmap, list[i].bitmap);
        }
    }
    assert_eq!(place(&Vec::new(), 10).len(), 0);
}

#[test]
fn canvas_draws_inside_itself_only() {
    let mut canvas = Canvas::new(4, 3, Color::rgb(1, 2, 3));
    canvas.fill_rect(-5, 1, 7, 100, Color::rgb(9, 8, 7));
    assert_eq!(pixel(&canvas, 0, 0), [3, 2, 1]);
    assert_eq!(pixel(&canvas, 1, 1), [7, 8, 9]);
    assert_eq!(pixel(&canvas, 2, 2), [3, 2, 1]);
    canvas.set_pixel(17, 17, Color::rgb(0, 0, 0));
    canvas.blend_pixel(3, 0, Color::rgb(201, 102, 53), 255);
    assert_eq!(pixel(&canvas, 3, 0), [53, 102, 201]);
    canvas.blend_pixel(3, 0, Color::rgb(0, 0, 0), 0);
    assert_eq!(pixel(&canvas, 3, 0), [53, 102, 201]);
    canvas.blend_pixel(3, 0, Color::rgb(255, 255, 255), 128);
    assert_eq!(pixel(&canvas, 3, 0), [154, 178, 228]);
    canvas.hline(0, 4, 0, Color::rgb(5, 5, 5));
    assert_eq!(pixel(&canvas, 3, 0), [5, 5, 5]);
    assert_eq!(pixel(&canvas, 3, 1), [3, 2, 1]);
}

#[test]
fn sliders_are_found_beside_their_tracks() {
    let s = Scale::new(v(1.0));
    assert_eq!(track_bounds(&s), (88, 276));
    assert_eq!(slider_x(SliderKind::Mic, &s), 142);
    assert_eq!(slider_at(58, 100, &s), Some(SliderKind::Speaker));
    assert_eq!(slider_at(84, 76, &s), Some(SliderKind::Speaker));
    assert_eq!(slider_at(85, 76, &s), None);
    assert_eq!(slider_at(116, 288, &s), Some(SliderKind::Mic));
    assert_eq!(slider_at(116, 289, &s), None);
    assert_eq!(slider_at(58, 75, &s), None);
}

#[test]
fn work_areas_are_listed_by_desktop() {
    let fallback = WorkArea {
        x: 0,
        y: 0,
        width: 640,
        height: 480,
    };
    let values = vec![1, 2, 3, 4, 5, 6, 4294967295, 8];
    assert_eq!(
        work_area(&values, 1, fallback),
        WorkArea {
            x: 5,
            y: 6,
            width: -1,
            height: 8
        }
    );
    assert_eq!(work_area(&values, 2, fallback), fallback);
    assert_eq!(work_area(&values, u32::MAX, fallback), fallback);
    assert_eq!(work_area(&Vec::new(), 0, fallback), fallback);
}

fn opened() -> Popup {
    let mut popup = Popup::new(Scale::new(v(1.0)), v(0.5), v(0.5));
    popup.place(WorkArea {
        x: 0,
        y: 0,
        width: 1000,
        height: 700,
    });
    popup.open(Some(0x100));
    popup
}

fn at(x: i16, y: i16, mask: u16) -> Pointer {
    Pointer { x, y, mask }
}

#[test]
fn commands_ask_for_steps() {
    let popup = opened();
    assert_eq!(popup.handle_command(Command::Show { x: 1, y: 2 }), PopupStep::Open);
    assert_eq!(popup.handle_command(Command::Hide), PopupStep::Close);
    assert_eq!(popup.handle_command(Command::Exit), PopupStep::Stop);
    assert_eq!(popup.wait_ms(), 8);
    let mut hidden = popup;
    hidden.close();
    assert_eq!(hidden.wait_ms(), 250);
}

#[test]
fn button_that_was_down_before_does_not_grab() {
    let mut popup = opened();
    assert_eq!(popup.origin, (800, 380));
    // The button that opened the popup is still down.
    let poll = popup.poll_pointer(at(858, 480, 0x100));
    assert_eq!(poll, Poll::Stay { set: None, dirty: true });
    assert_eq!(popup.hovered, Some(SliderKind::Speaker));
    assert_eq!(popup.dragging, None);
}

#[test]
fn drag_sets_the_volume_until_the_button_is_released() {
    let mut popup = opened();
    popup.poll_pointer(at(858, 480, 0));
    let poll = popup.poll_pointer(at(858, 468, 0x100));
    assert_eq!(
        poll,
        Poll::Stay {
            set: Some((SliderKind::Speaker, v(1.5))),
            dirty: true
        }
    );
    assert_eq!(popup.dragging, Some(SliderKind::Speaker));
    // The pointer leaves the slider, and the slider follows.
    let poll = popup.poll_pointer(at(950, 656, 0x100));
    assert_eq!(
        poll,
        Poll::Stay {
            set: Some((SliderKind::Speaker, v(0.0))),
            dirty: true
        }
    );
    assert_eq!(popup.hovered, Some(SliderKind::Speaker));
    // The release moves the slider once more.
    let poll = popup.poll_pointer(at(950, 562, 0));
    assert_eq!(
        poll,
        Poll::Stay {
            set: Some((SliderKind::Speaker, v(0.75))),
            dirty: true
        }
    );
    assert_eq!(popup.dragging, None);
    let poll = popup.poll_pointer(at(950, 562, 0));
    assert_eq!(poll, Poll::Stay { set: None, dirty: false });
}

#[test]
fn press_beside_the_popup_hides_it() {
    let mut popup = opened();
    popup.poll_pointer(at(10, 10, 0));
    assert_eq!(popup.poll_pointer(at(10, 10, 0x400)), Poll::Hide);
    assert!(popup.visible);
    popup.close();
    assert!(!popup.visible);
    assert_eq!(popup.buttons, 0x400);
    assert_eq!(button_bits(0xffff), 0x700);
}

#[test]
fn changed_volumes_are_drawn() {
    let mut popup = opened();
    assert!(!popup.note_volumes(v(0.5), v(0.5), false));
    assert!(popup.note_volumes(v(0.5), v(0.5), true));
    assert!(popup.note_volumes(v(0.5), v(0.75), false));
    assert!(!popup.note_volumes(v(0.5), v(0.75), false));
    assert!(popup.note_volumes(v(f32::NAN), v(0.75), false));
    assert!(!popup.note_volumes(v(f32::NAN), v(0.75), false));
}

#[test]
fn popup_draws_itself() {
    let font = preview_font();
    let mut popup = opened();
    popup.poll_pointer(at(942, 480, 0));
    assert_eq!(popup.hovered, Some(SliderKind::Mic));
    let title = glyphs(&font, &title_caption(&popup.scale, popup.width), 1.0);
    let first = labels(&font, SliderKind::Speaker, 1.0, popup.width, 0.2);
    let second = labels(&font, SliderKind::Mic, 1.0, popup.width, 0.2);
    let canvas = popup.draw(v(0.2), v(0.2), &title, &first, &second);
    assert_eq!(canvas.bytes().len(), 200 * 320 * 4);
    // The microphone's bubble stands to the left of its slider.
    let row = value_y(v(0.2), 88, 276);
    assert_eq!(pixel(&canvas, 60, (row - 10) as usize), [252, 252, 252]);
}

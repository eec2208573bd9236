//! What the mixer popup looks like: a frame with a tab, and two sliders with their labels.

use crate::arith::bounded;
use crate::arith::number;
use crate::arith::size;
use crate::canvas::base_line;
use crate::canvas::frame_thickness;
use crate::canvas::half;
use crate::canvas::halve;
use crate::canvas::in_rect;
use crate::canvas::is_writable;
use crate::canvas::on_frame;
use crate::canvas::solid;
use crate::canvas::writable;
use crate::canvas::written;
use crate::canvas::Canvas;
use crate::canvas::Color;
use crate::canvas::Glyph;
use crate::canvas::Pixel;
use crate::canvas::MAX_PIXELS;
use crate::display::bubble_shown;
use crate::display::bubble_text;
use crate::popup::slider_column;
use crate::popup::slider_x;
use crate::popup::track_bounds;
use crate::popup::Popup;
use crate::popup::SliderKind;
use crate::popup::LOGICAL_HEIGHT;
use crate::popup::LOGICAL_WIDTH;
use crate::popup::TRACK_BOTTOM;
use crate::popup::TRACK_TOP;
use crate::scale::highest;
use crate::scale::is_scale;
use crate::scale::lemma_filled;
use crate::scale::lemma_pixels;
use crate::scale::pixels;
use crate::scale::row_of;
use crate::scale::value_y;
use crate::scale::Scale;
use crate::scale::HIGHEST;
use crate::value::clamped;
use crate::value::unit;
use crate::value::Value;
use vstd::arithmetic::power2::lemma_pow2_pos;
use vstd::prelude::*;

verus! {

/// The colour of the background.
pub open spec fn ground() -> Color {
    Color { red: 244, green: 244, blue: 244 }
}

/// The colour of the frames.
pub open spec fn border() -> Color {
    Color { red: 150, green: 150, blue: 150 }
}

/// The colour of the letters.
pub open spec fn ink() -> Color {
    Color { red: 32, green: 32, blue: 32 }
}

/// The colour of the filled part of a track.
pub open spec fn active() -> Color {
    Color { red: 72, green: 163, blue: 222 }
}

/// The colour of the empty part of a track.
pub open spec fn rail() -> Color {
    Color { red: 208, green: 208, blue: 208 }
}

/// The colour of a handle.
pub open spec fn knob() -> Color {
    Color { red: 238, green: 238, blue: 238 }
}

/// The colour of the frame of a handle.
pub open spec fn knob_edge() -> Color {
    Color { red: 55, green: 55, blue: 55 }
}

/// The colour behind a shown volume.
pub open spec fn bubble() -> Color {
    Color { red: 252, green: 252, blue: 252 }
}

/// A pixel that shows `color` where it is covered, and else what it was.
pub open spec fn over(p: Pixel, covered: bool, color: Color) -> Pixel {
    if covered {
        solid(color)
    } else {
        p
    }
}

/// The thickness of all frames.
pub open spec fn line(s: Value) -> int {
    frame_thickness(pixels(1, s))
}

/// The column where the tab begins.
pub open spec fn tab_column(s: Value, width: int) -> int {
    half(width - pixels(58, s))
}

/// A pixel of the popup before the sliders are drawn: the background with its frame, a line
/// with a tab in its middle, and the tab's title.
pub open spec fn backdrop(s: Value, width: int, height: int, title: Seq<Glyph>, x: int, y: int) -> Pixel {
    let tab = tab_column(s, width);
    let tab_width = pixels(58, s);
    let tab_height = pixels(22, s);
    let p = over(solid(ground()), on_frame(x, y, 0, 0, width, height, line(s)), border());
    let p = over(p, (0 <= x < tab || tab + tab_width <= x < width) && y == tab_height, border());
    let p = over(p, in_rect(x, y, tab, 0, tab_width, tab_height + 1), ground());
    let p = over(p, on_frame(x, y, tab, 0, tab_width, tab_height + 1, line(s)), border());
    written(p, title, base_line(title, half(tab_height)), x, y, ink())
}

/// A volume brought into the range of the sliders.
pub open spec fn volume_in_range(value: Value) -> Value {
    bounded(value, number(0), highest())
}

/// The row of a slider's handle.
pub open spec fn handle_row(s: Value, value: Value) -> int {
    row_of(volume_in_range(value), pixels(TRACK_TOP as int, s), pixels(TRACK_BOTTOM as int, s))
}

/// The width of a track: never less than two pixels.
pub open spec fn rail_width(s: Value) -> int {
    if pixels(10, s) < 2 {
        2
    } else {
        pixels(10, s)
    }
}

/// The labels of a slider: its name, the highest volume, the lowest one, and the volume
/// that is shown while the pointer is on it.
pub struct Labels {
    pub name: Vec<Glyph>,
    pub high: Vec<Glyph>,
    pub low: Vec<Glyph>,
    pub volume: Vec<Glyph>,
}

impl Labels {
    /// Whether the labels that are always shown can be written at a scale.
    pub open spec fn wf(self, s: Value) -> bool {
        &&& writable(self.name@, pixels(43, s))
        &&& writable(self.high@, pixels(68, s))
        &&& writable(self.low@, pixels(299, s))
    }

    /// Whether the labels that are always shown can be written at a scale.
    pub fn are_writable(&self, scale: &Scale) -> (yes: bool)
        ensures
            yes == self.wf(scale@),
    {
        is_writable(&self.name, scale.px(43)) && is_writable(&self.high, scale.px(68))
            && is_writable(&self.low, scale.px(299))
    }

    /// Whether the volume can be written beside the handle of a slider that shows `value`.
    pub open spec fn shows_volume(self, s: Value, height: int, value: Value) -> bool {
        writable(self.volume@, bubble_row(s, height, value) + half(pixels(32, s)))
    }

    /// Whether the volume can be written beside the handle of a slider that shows `value`.
    pub fn volume_is_writable(&self, scale: &Scale, height: u16, value: Value) -> (yes: bool)
        ensures
            yes == self.shows_volume(scale@, height as int, value),
    {
        is_writable(&self.volume, bubble_y(scale, height, value) + halve(scale.px(32)))
    }
}

/// Whether the title can be written on the tab at a scale.
pub fn title_is_writable(title: &Vec<Glyph>, scale: &Scale) -> (yes: bool)
    ensures
        yes == writable(title@, half(pixels(22, scale@))),
{
    is_writable(title, halve(scale.px(22)))
}

/// A pixel after a slider was drawn over it: the labels, the track, its filled part and the
/// handle.
pub open spec fn with_slider(
    p: Pixel,
    s: Value,
    column: int,
    value: Value,
    labels: Labels,
    x: int,
    y: int,
) -> Pixel {
    let top = pixels(TRACK_TOP as int, s);
    let bottom = pixels(TRACK_BOTTOM as int, s);
    let row = handle_row(s, value);
    let left = column - half(rail_width(s));
    let handle = column - half(pixels(28, s));
    let handle_top = row - half(pixels(17, s));
    let p = written(p, labels.name@, base_line(labels.name@, pixels(43, s)), x, y, ink());
    let p = written(p, labels.high@, base_line(labels.high@, pixels(68, s)), x, y, ink());
    let p = written(p, labels.low@, base_line(labels.low@, pixels(299, s)), x, y, ink());
    let p = over(p, in_rect(x, y, left, top, rail_width(s), bottom - top), rail());
    let p = over(p, in_rect(x, y, left, row, rail_width(s), bottom - row), active());
    let p = over(p, in_rect(x, y, handle, handle_top, pixels(28, s), pixels(17, s)), knob());
    over(
        p,
        on_frame(x, y, handle, handle_top, pixels(28, s), pixels(17, s), line(s)),
        knob_edge(),
    )
}

/// The column where the shown volume of a slider begins: towards the middle of the popup, and
/// inside it.
pub open spec fn bubble_column(s: Value, width: int, kind: SliderKind) -> int {
    let x = slider_column(kind, s);
    clamped(
        match kind {
            SliderKind::Speaker => x + pixels(20, s),
            SliderKind::Mic => x - pixels(20, s) - pixels(64, s),
        },
        pixels(4, s),
        width - pixels(64, s) - pixels(4, s),
    )
}

/// The row where the shown volume of a slider begins: beside its handle, and inside the popup.
pub open spec fn bubble_row(s: Value, height: int, value: Value) -> int {
    clamped(
        handle_row(s, value) - half(pixels(32, s)),
        pixels(76, s),
        height - pixels(32, s) - pixels(4, s),
    )
}

/// A pixel after the volume of a slider was shown over it.
pub open spec fn with_bubble(
    p: Pixel,
    s: Value,
    column: int,
    row: int,
    text: Seq<Glyph>,
    x: int,
    y: int,
) -> Pixel {
    let p = over(p, in_rect(x, y, column, row, pixels(64, s), pixels(32, s)), bubble());
    let p = over(p, on_frame(x, y, column, row, pixels(64, s), pixels(32, s), line(s)), border());
    written(p, text, base_line(text, row + half(pixels(32, s))), x, y, ink())
}

/// Whether the shown volume finds room in a popup.
pub open spec fn has_room(s: Value, width: int, height: int) -> bool {
    &&& pixels(4, s) <= width - pixels(64, s) - pixels(4, s)
    &&& pixels(76, s) <= height - pixels(32, s) - pixels(4, s)
}

/// A pixel after a slider, and its volume if the pointer is on it, were drawn over it.
pub open spec fn with_channel(
    p: Pixel,
    s: Value,
    width: int,
    height: int,
    kind: SliderKind,
    value: Value,
    hovered: Option<SliderKind>,
    labels: Labels,
    x: int,
    y: int,
) -> Pixel {
    let p = with_slider(p, s, slider_column(kind, s), value, labels, x, y);
    if hovered == Some(kind) {
        with_bubble(
            p,
            s,
            bubble_column(s, width, kind),
            bubble_row(s, height, value),
            labels.volume@,
            x,
            y,
        )
    } else {
        p
    }
}

/// A pixel of the popup.
pub open spec fn picture(
    s: Value,
    width: int,
    height: int,
    speaker: Value,
    mic: Value,
    hovered: Option<SliderKind>,
    title: Seq<Glyph>,
    speaker_labels: Labels,
    mic_labels: Labels,
    x: int,
    y: int,
) -> Pixel {
    let p = backdrop(s, width, height, title, x, y);
    let p = with_channel(
        p,
        s,
        width,
        height,
        SliderKind::Speaker,
        speaker,
        hovered,
        speaker_labels,
        x,
        y,
    );
    with_channel(p, s, width, height, SliderKind::Mic, mic, hovered, mic_labels, x, y)
}

fn draw_backdrop(scale: &Scale, width: u16, height: u16, title: &Vec<Glyph>) -> (canvas: Canvas)
    requires
        width * height <= MAX_PIXELS,
        writable(title@, half(pixels(22, scale@))),
    ensures
        canvas.wf(),
        canvas.wide() == width,
        canvas.high() == height,
        forall|x: int, y: int|
            canvas.covers(x, y) ==> #[trigger] canvas.pixel(x, y) == backdrop(
                scale@,
                width as int,
                height as int,
                title@,
                x,
                y,
            ),
{
    let edge = Color::rgb(150, 150, 150);
    let back = Color::rgb(244, 244, 244);
    let mut canvas = Canvas::new(width, height, back);
    let w: i32 = width as i32;
    let thin: i32 = scale.px(1);
    canvas.stroke_rect(0, 0, w, height as i32, thin, edge);
    let tab_width: i32 = scale.px(58);
    let tab_height: i32 = scale.px(22);
    let tab: i32 = halve(w - tab_width);
    canvas.hline(0, tab, tab_height, edge);
    canvas.hline(tab + tab_width, w, tab_height, edge);
    canvas.fill_rect(tab, 0, tab_width, tab_height + 1, back);
    canvas.stroke_rect(tab, 0, tab_width, tab_height + 1, thin, edge);
    canvas.text_centered(title, halve(tab_height), Color::rgb(32, 32, 32));
    canvas
}

fn draw_slider(canvas: &mut Canvas, scale: &Scale, column: i32, value: Value, labels: &Labels)
    requires
        old(canvas).wf(),
        0 <= column <= 1000,
        labels.wf(scale@),
    ensures
        final(canvas).wf(),
        final(canvas).same_size(*old(canvas)),
        forall|x: int, y: int|
            final(canvas).covers(x, y) ==> #[trigger] final(canvas).pixel(x, y) == with_slider(
                old(canvas).pixel(x, y),
                scale@,
                column as int,
                value,
                *labels,
                x,
                y,
            ),
{
    let text = Color::rgb(32, 32, 32);
    canvas.text_centered(&labels.name, scale.px(43), text);
    canvas.text_centered(&labels.high, scale.px(68), text);
    canvas.text_centered(&labels.low, scale.px(299), text);
    let (top, bottom) = track_bounds(scale);
    let row: i32 = handle_y(scale, value);
    let ten: i32 = scale.px(10);
    let wide: i32 = if ten < 2 {
        2
    } else {
        ten
    };
    let left: i32 = column - halve(wide);
    canvas.fill_rect(left, top, wide, bottom - top, Color::rgb(208, 208, 208));
    canvas.fill_rect(left, row, wide, bottom - row, Color::rgb(72, 163, 222));
    let handle_width: i32 = scale.px(28);
    let handle_height: i32 = scale.px(17);
    let handle: i32 = column - halve(handle_width);
    let handle_top: i32 = row - halve(handle_height);
    canvas.fill_rect(handle, handle_top, handle_width, handle_height, Color::rgb(238, 238, 238));
    canvas.stroke_rect(
        handle,
        handle_top,
        handle_width,
        handle_height,
        scale.px(1),
        Color::rgb(55, 55, 55),
    );
}

/// The row of a slider's handle.
fn handle_y(scale: &Scale, value: Value) -> (row: i32)
    ensures
        row == handle_row(scale@, value),
        pixels(TRACK_TOP as int, scale@) <= row <= pixels(TRACK_BOTTOM as int, scale@),
        0 <= row <= 1000,
{
    let (top, bottom) = track_bounds(scale);
    let volume = value.within(Value::of_int(0), Value { bits: HIGHEST });
    proof {
        lemma_filled(volume, bottom - top);
    }
    value_y(volume, top, bottom)
}

fn bubble_x(scale: &Scale, width: u16, kind: SliderKind) -> (x: i32)
    ensures
        x == bubble_column(scale@, width as int, kind),
        -1000 <= x <= 70000,
{
    let column: i32 = slider_x(kind, scale);
    let wide: i32 = scale.px(64);
    let far: i32 = scale.px(20);
    let x: i32 = match kind {
        SliderKind::Speaker => column + far,
        SliderKind::Mic => column - far - wide,
    };
    clamp(x, scale.px(4), width as i32 - wide - scale.px(4))
}

fn bubble_y(scale: &Scale, height: u16, value: Value) -> (y: i32)
    ensures
        y == bubble_row(scale@, height as int, value),
        -1000 <= y <= 70000,
{
    let high: i32 = scale.px(32);
    clamp(
        handle_y(scale, value) - halve(high),
        scale.px(76),
        height as i32 - high - scale.px(4),
    )
}

fn clamp(n: i32, low: i32, high: i32) -> (c: i32)
    ensures
        c == clamped(n as int, low as int, high as int),
{
    if n < low {
        low
    } else if n > high {
        high
    } else {
        n
    }
}

fn draw_bubble(canvas: &mut Canvas, scale: &Scale, column: i32, row: i32, text: &Vec<Glyph>)
    requires
        old(canvas).wf(),
        -1000 <= column <= 70000,
        -1000 <= row <= 70000,
        writable(text@, row + half(pixels(32, scale@))),
    ensures
        final(canvas).wf(),
        final(canvas).same_size(*old(canvas)),
        forall|x: int, y: int|
            final(canvas).covers(x, y) ==> #[trigger] final(canvas).pixel(x, y) == with_bubble(
                old(canvas).pixel(x, y),
                scale@,
                column as int,
                row as int,
                text@,
                x,
                y,
            ),
{
    let wide: i32 = scale.px(64);
    let high: i32 = scale.px(32);
    canvas.fill_rect(column, row, wide, high, Color::rgb(252, 252, 252));
    canvas.stroke_rect(column, row, wide, high, scale.px(1), Color::rgb(150, 150, 150));
    canvas.text_centered(text, row + halve(high), Color::rgb(32, 32, 32));
}

fn is_hovered(hovered: Option<SliderKind>, kind: SliderKind) -> (yes: bool)
    ensures
        yes == (hovered == Some(kind)),
{
    match hovered {
        Some(other) => other == kind,
        None => false,
    }
}

fn draw_channel(
    canvas: &mut Canvas,
    scale: &Scale,
    width: u16,
    height: u16,
    kind: SliderKind,
    value: Value,
    hovered: Option<SliderKind>,
    labels: &Labels,
)
    requires
        old(canvas).wf(),
        labels.wf(scale@),
        hovered == Some(kind) ==> labels.shows_volume(scale@, height as int, value),
    ensures
        final(canvas).wf(),
        final(canvas).same_size(*old(canvas)),
        forall|x: int, y: int|
            final(canvas).covers(x, y) ==> #[trigger] final(canvas).pixel(x, y) == with_channel(
                old(canvas).pixel(x, y),
                scale@,
                width as int,
                height as int,
                kind,
                value,
                hovered,
                *labels,
                x,
                y,
            ),
{
    draw_slider(canvas, scale, slider_x(kind, scale), value, labels);
    if is_hovered(hovered, kind) {
        let column: i32 = bubble_x(scale, width, kind);
        let row: i32 = bubble_y(scale, height, value);
        draw_bubble(canvas, scale, column, row, &labels.volume);
    }
}

/// Draws the popup.
pub fn render_popup(
    scale: &Scale,
    width: u16,
    height: u16,
    speaker: Value,
    mic: Value,
    hovered: Option<SliderKind>,
    title: &Vec<Glyph>,
    speaker_labels: &Labels,
    mic_labels: &Labels,
) -> (canvas: Canvas)
    requires
        width * height <= MAX_PIXELS,
        hovered is Some ==> has_room(scale@, width as int, height as int),
        writable(title@, half(pixels(22, scale@))),
        speaker_labels.wf(scale@),
        mic_labels.wf(scale@),
        hovered == Some(SliderKind::Speaker) ==> speaker_labels.shows_volume(
            scale@,
            height as int,
            speaker,
        ),
        hovered == Some(SliderKind::Mic) ==> mic_labels.shows_volume(scale@, height as int, mic),
    ensures
        canvas.wf(),
        canvas.wide() == width,
        canvas.high() == height,
        forall|x: int, y: int|
            canvas.covers(x, y) ==> #[trigger] canvas.pixel(x, y) == picture(
                scale@,
                width as int,
                height as int,
                speaker,
                mic,
                hovered,
                title@,
                *speaker_labels,
                *mic_labels,
                x,
                y,
            ),
{
    let mut canvas = draw_backdrop(scale, width, height, title);
    draw_channel(
        &mut canvas,
        scale,
        width,
        height,
        SliderKind::Speaker,
        speaker,
        hovered,
        speaker_labels,
    );
    draw_channel(
        &mut canvas,
        scale,
        width,
        height,
        SliderKind::Mic,
        mic,
        hovered,
        mic_labels,
    );
    canvas
}

/// A text of the popup: what it says, its logical size, and the column that it is centred at.
pub struct Caption {
    pub text: String,
    pub size: i32,
    pub center_x: i32,
}

/// The title on the tab.
pub fn title_caption(scale: &Scale, width: u16) -> (caption: Caption)
    ensures
        caption.text@ == "G6"@,
        caption.size == 15,
        caption.center_x == tab_column(scale@, width as int) + half(pixels(58, scale@)),
{
    let tab_width: i32 = scale.px(58);
    Caption {
        text: "G6".to_owned(),
        size: 15,
        center_x: halve(width as i32 - tab_width) + halve(tab_width),
    }
}

/// The name of a slider.
pub open spec fn slider_name(kind: SliderKind) -> Seq<char> {
    match kind {
        SliderKind::Speaker => "Speaker"@,
        SliderKind::Mic => "Mic"@,
    }
}

/// The name of a slider, above its track.
pub fn name_caption(kind: SliderKind, scale: &Scale) -> (caption: Caption)
    ensures
        caption.text@ == slider_name(kind),
        caption.size == 18,
        caption.center_x == slider_column(kind, scale@),
{
    let text = match kind {
        SliderKind::Speaker => "Speaker".to_owned(),
        SliderKind::Mic => "Mic".to_owned(),
    };
    Caption { text, size: 18, center_x: slider_x(kind, scale) }
}

/// The highest volume, at the upper end of a track.
pub fn high_caption(kind: SliderKind, scale: &Scale) -> (caption: Caption)
    ensures
        caption.text@ == "150%"@,
        caption.size == 16,
        caption.center_x == slider_column(kind, scale@),
{
    Caption { text: "150%".to_owned(), size: 16, center_x: slider_x(kind, scale) }
}

/// The lowest volume, at the lower end of a track.
pub fn low_caption(kind: SliderKind, scale: &Scale) -> (caption: Caption)
    ensures
        caption.text@ == "0%"@,
        caption.size == 16,
        caption.center_x == slider_column(kind, scale@),
{
    Caption { text: "0%".to_owned(), size: 16, center_x: slider_x(kind, scale) }
}

/// The volume of a slider, in the middle of its bubble.
pub fn volume_caption(kind: SliderKind, scale: &Scale, width: u16, value: Value) -> (caption:
    Caption)
    ensures
        caption.text@ == bubble_shown(volume_in_range(value)),
        caption.size == 18,
        caption.center_x == bubble_column(scale@, width as int, kind) + half(pixels(64, scale@)),
{
    Caption {
        text: bubble_text(value),
        size: 18,
        center_x: bubble_x(scale, width, kind) + halve(scale.px(64)),
    }
}

/// In a popup that has the size of its scale the shown volume always finds room.
pub proof fn law_popup_has_room(s: Value)
    requires
        is_scale(s),
    ensures
        has_room(s, pixels(LOGICAL_WIDTH as int, s), pixels(LOGICAL_HEIGHT as int, s)),
{
    let t = unit();
    lemma_pow2_pos(149);
    lemma_pixels(4, s);
    lemma_pixels(64, s);
    lemma_pixels(200, s);
    lemma_pixels(76, s);
    lemma_pixels(32, s);
    lemma_pixels(320, s);
    if !s.is_nan() {
        let f = size(s);
        let (a, b, c) = (pixels(4, s), pixels(64, s), pixels(200, s));
        assert(2 * a + b <= c) by (nonlinear_arith)
            requires
                8 * (a * t - 4 * f) <= 5 * t,
                8 * (b * t - 64 * f) <= 5 * t,
                -5 * t <= 8 * (c * t - 200 * f),
                f >= t > 0,
        ;
        let (d, e, g) = (pixels(76, s), pixels(32, s), pixels(320, s));
        assert(d + e + a <= g) by (nonlinear_arith)
            requires
                8 * (a * t - 4 * f) <= 5 * t,
                8 * (d * t - 76 * f) <= 5 * t,
                8 * (e * t - 32 * f) <= 5 * t,
                -5 * t <= 8 * (g * t - 320 * f),
                f >= t > 0,
        ;
    }
}

/// Whether a letter lies in a rectangle when its base line is at `base`.
pub open spec fn letter_inside(
    letter: Glyph,
    base: int,
    x: int,
    y: int,
    width: int,
    height: int,
) -> bool {
    &&& x <= letter.start_x && letter.start_x + letter.width <= x + width
    &&& y <= base + letter.top && base + letter.top + letter.height <= y + height
}

/// Whether the letters of the shown volume lie in its bubble.
pub open spec fn volume_inside(
    s: Value,
    width: int,
    height: int,
    kind: SliderKind,
    value: Value,
    text: Seq<Glyph>,
) -> bool {
    let row = bubble_row(s, height, value);
    forall|i: int|
        0 <= i < text.len() ==> letter_inside(
            #[trigger] text[i],
            base_line(text, row + half(pixels(32, s))),
            bubble_column(s, width, kind),
            row,
            pixels(64, s),
            pixels(32, s),
        )
}

/// Whether no letter of a text whose base line is at `base` covers a point.
pub open spec fn uncovered(text: Seq<Glyph>, base: int, x: int, y: int) -> bool {
    forall|i: int| 0 <= i < text.len() ==> (#[trigger] text[i]).cover(base, x, y) == 0
}

proof fn lemma_written_outside(p: Pixel, text: Seq<Glyph>, base: int, x: int, y: int)
    requires
        uncovered(text, base, x, y),
    ensures
        written(p, text, base, x, y, ink()) == p,
    decreases text.len(),
{
    if text.len() > 0 {
        assert forall|i: int| 0 <= i < text.drop_last().len() implies (
        #[trigger] text.drop_last()[i]).cover(base, x, y) == 0 by {
            assert(text.drop_last()[i] == text[i]);
        }
        lemma_written_outside(p, text.drop_last(), base, x, y);
        assert(text[text.len() - 1].cover(base, x, y) == 0);
    }
}

/// Moving the pointer onto a slider changes only the bubble beside its handle and the letters
/// of its volume: any other pixel stays what it was, and the bubble lies inside the popup.
pub proof fn law_hovering_leaves_the_rest(
    s: Value,
    speaker: Value,
    mic: Value,
    kind: SliderKind,
    title: Seq<Glyph>,
    speaker_labels: Labels,
    mic_labels: Labels,
    x: int,
    y: int,
)
    requires
        is_scale(s),
    ensures
        ({
            let width = pixels(LOGICAL_WIDTH as int, s);
            let height = pixels(LOGICAL_HEIGHT as int, s);
            let (value, text) = match kind {
                SliderKind::Speaker => (speaker, speaker_labels.volume@),
                SliderKind::Mic => (mic, mic_labels.volume@),
            };
            let left = bubble_column(s, width, kind);
            let top = bubble_row(s, height, value);
            &&& 0 <= left && left + pixels(64, s) <= width
            &&& 0 <= top && top + pixels(32, s) <= height
            &&& !in_rect(x, y, left, top, pixels(64, s), pixels(32, s)) && uncovered(
                text,
                base_line(text, top + half(pixels(32, s))),
                x,
                y,
            ) ==> picture(
                s,
                width,
                height,
                speaker,
                mic,
                None,
                title,
                speaker_labels,
                mic_labels,
                x,
                y,
            ) == picture(
                s,
                width,
                height,
                speaker,
                mic,
                Some(kind),
                title,
                speaker_labels,
                mic_labels,
                x,
                y,
            )
        }),
{
    let width = pixels(LOGICAL_WIDTH as int, s);
    let height = pixels(LOGICAL_HEIGHT as int, s);
    let (value, text) = match kind {
        SliderKind::Speaker => (speaker, speaker_labels.volume@),
        SliderKind::Mic => (mic, mic_labels.volume@),
    };
    let left = bubble_column(s, width, kind);
    let top = bubble_row(s, height, value);
    let (w, h) = (pixels(64, s), pixels(32, s));
    let base = base_line(text, top + half(h));
    law_popup_has_room(s);
    lemma_pixels(1, s);
    lemma_pixels(4, s);
    lemma_pixels(32, s);
    lemma_pixels(64, s);
    lemma_pixels(76, s);
    lemma_pow2_pos(149);
    if !s.is_nan() {
        let t = unit();
        let f = size(s);
        assert(w >= 3 && h >= 3) by (nonlinear_arith)
            requires
                -5 * t <= 8 * (w * t - 64 * f),
                -5 * t <= 8 * (h * t - 32 * f),
                f >= t > 0,
        ;
    }
    if !in_rect(x, y, left, top, w, h) && uncovered(text, base, x, y) {
        assert(!on_frame(x, y, left, top, w, h, line(s)));
        assert forall|p: Pixel| #[trigger] with_bubble(p, s, left, top, text, x, y) == p by {
            lemma_written_outside(p, text, base, x, y);
        }
    }
}

/// Where the letters of the volume lie in the bubble, moving the pointer onto a slider changes
/// only the bubble beside its handle: outside it every pixel stays what it was.
pub proof fn law_hovering_shows_only_the_bubble(
    s: Value,
    speaker: Value,
    mic: Value,
    kind: SliderKind,
    title: Seq<Glyph>,
    speaker_labels: Labels,
    mic_labels: Labels,
    x: int,
    y: int,
)
    requires
        is_scale(s),
        kind == SliderKind::Speaker ==> volume_inside(
            s,
            pixels(LOGICAL_WIDTH as int, s),
            pixels(LOGICAL_HEIGHT as int, s),
            kind,
            speaker,
            speaker_labels.volume@,
        ),
        kind == SliderKind::Mic ==> volume_inside(
            s,
            pixels(LOGICAL_WIDTH as int, s),
            pixels(LOGICAL_HEIGHT as int, s),
            kind,
            mic,
            mic_labels.volume@,
        ),
    ensures
        ({
            let width = pixels(LOGICAL_WIDTH as int, s);
            let height = pixels(LOGICAL_HEIGHT as int, s);
            let value = match kind {
                SliderKind::Speaker => speaker,
                SliderKind::Mic => mic,
            };
            let left = bubble_column(s, width, kind);
            let top = bubble_row(s, height, value);
            &&& 0 <= left && left + pixels(64, s) <= width
            &&& 0 <= top && top + pixels(32, s) <= height
            &&& !in_rect(x, y, left, top, pixels(64, s), pixels(32, s)) ==> picture(
                s,
                width,
                height,
                speaker,
                mic,
                None,
                title,
                speaker_labels,
                mic_labels,
                x,
                y,
            ) == picture(
                s,
                width,
                height,
                speaker,
                mic,
                Some(kind),
                title,
                speaker_labels,
                mic_labels,
                x,
                y,
            )
        }),
{
    let height = pixels(LOGICAL_HEIGHT as int, s);
    let (value, text) = match kind {
        SliderKind::Speaker => (speaker, speaker_labels.volume@),
        SliderKind::Mic => (mic, mic_labels.volume@),
    };
    let left = bubble_column(s, pixels(LOGICAL_WIDTH as int, s), kind);
    let top = bubble_row(s, height, value);
    let (w, h) = (pixels(64, s), pixels(32, s));
    let base = base_line(text, top + half(h));
    law_hovering_leaves_the_rest(
        s,
        speaker,
        mic,
        kind,
        title,
        speaker_labels,
        mic_labels,
        x,
        y,
    );
    if !in_rect(x, y, left, top, w, h) {
        assert forall|i: int| 0 <= i < text.len() implies (#[trigger] text[i]).cover(base, x, y)
            == 0 by {
            assert(letter_inside(text[i], base, left, top, w, h));
        }
    }
}

impl Popup {
    /// Draws the popup with the volumes `sink` and `source`.
    pub fn draw(
        &self,
        sink: Value,
        source: Value,
        title: &Vec<Glyph>,
        speaker_labels: &Labels,
        mic_labels: &Labels,
    ) -> (canvas: Canvas)
        requires
            self.wf(),
            writable(title@, half(pixels(22, self.scale@))),
            speaker_labels.wf(self.scale@),
            mic_labels.wf(self.scale@),
            self.hovered == Some(SliderKind::Speaker) ==> speaker_labels.shows_volume(
                self.scale@,
                self.height as int,
                sink,
            ),
            self.hovered == Some(SliderKind::Mic) ==> mic_labels.shows_volume(
                self.scale@,
                self.height as int,
                source,
            ),
        ensures
            canvas.wf(),
            canvas.wide() == self.width,
            canvas.high() == self.height,
            forall|x: int, y: int|
                canvas.covers(x, y) ==> #[trigger] canvas.pixel(x, y) == picture(
                    self.scale@,
                    self.width as int,
                    self.height as int,
                    sink,
                    source,
                    self.hovered,
                    title@,
                    *speaker_labels,
                    *mic_labels,
                    x,
                    y,
                ),
    {
        let ghost w = self.width as int;
        let ghost h = self.height as int;
        let factor = self.scale.factor();
        proof {
            law_popup_has_room(factor);
            lemma_pixels(LOGICAL_WIDTH as int, factor);
            lemma_pixels(LOGICAL_HEIGHT as int, factor);
            assert(w * h <= 600 * 960) by (nonlinear_arith)
                requires
                    0 <= w <= 600,
                    0 <= h <= 960,
            ;
        }
        render_popup(
            &self.scale,
            self.width,
            self.height,
            sink,
            source,
            self.hovered,
            title,
            speaker_labels,
            mic_labels,
        )
    }
}

/// What a slider looks like: its handle with a dark edge lies over its track, which is filled
/// from the row of the handle down to the lower end and empty above; everything else stays,
/// but for the letters of the labels.
pub proof fn law_slider_is_filled_below_its_handle(
    p: Pixel,
    s: Value,
    column: int,
    value: Value,
    labels: Labels,
    x: int,
    y: int,
)
    ensures
        ({
            let row = row_of(bounded(value, number(0), highest()), pixels(88, s), pixels(276, s));
            let wide = if pixels(10, s) < 2 {
                2
            } else {
                pixels(10, s)
            };
            let edge = if pixels(1, s) < 1 {
                1
            } else {
                pixels(1, s)
            };
            let left = column - half(pixels(28, s));
            let top = row - half(pixels(17, s));
            let on_edge = on_frame(x, y, left, top, pixels(28, s), pixels(17, s), edge);
            let on_knob = in_rect(x, y, left, top, pixels(28, s), pixels(17, s));
            let beside = column - half(wide) <= x < column - half(wide) + wide;
            let shown = with_slider(p, s, column, value, labels, x, y);
            &&& on_edge ==> shown == solid(Color { red: 55, green: 55, blue: 55 })
            &&& on_knob && !on_edge ==> shown == solid(Color { red: 238, green: 238, blue: 238 })
            &&& !on_knob && !on_edge && beside && row <= y < pixels(276, s) ==> shown == solid(
                Color { red: 72, green: 163, blue: 222 },
            )
            &&& !on_knob && !on_edge && beside && pixels(88, s) <= y < pixels(276, s) && y < row
                ==> shown == solid(Color { red: 208, green: 208, blue: 208 })
            &&& !on_knob && !on_edge && !beside && uncovered(
                labels.name@,
                base_line(labels.name@, pixels(43, s)),
                x,
                y,
            ) && uncovered(labels.high@, base_line(labels.high@, pixels(68, s)), x, y) && uncovered(
                labels.low@,
                base_line(labels.low@, pixels(299, s)),
                x,
                y,
            ) ==> shown == p
        }),
{
    let (a, b, c) = (
        base_line(labels.name@, pixels(43, s)),
        base_line(labels.high@, pixels(68, s)),
        base_line(labels.low@, pixels(299, s)),
    );
    if uncovered(labels.name@, a, x, y) && uncovered(labels.high@, b, x, y) && uncovered(
        labels.low@,
        c,
        x,
        y,
    ) {
        lemma_written_outside(p, labels.name@, a, x, y);
        lemma_written_outside(p, labels.high@, b, x, y);
        lemma_written_outside(p, labels.low@, c, x, y);
    }
}

/// The bubble of the speaker stands to the right of its slider, that of the microphone to the
/// left of its own.
pub proof fn law_bubbles_stand_towards_the_middle(s: Value)
    requires
        is_scale(s),
    ensures
        bubble_column(s, pixels(200, s), SliderKind::Speaker) >= pixels(58, s),
        bubble_column(s, pixels(200, s), SliderKind::Mic) + pixels(64, s) <= pixels(142, s),
{
    let t = unit();
    lemma_pow2_pos(149);
    lemma_pixels(4, s);
    lemma_pixels(20, s);
    lemma_pixels(58, s);
    lemma_pixels(64, s);
    lemma_pixels(142, s);
    lemma_pixels(200, s);
    if !s.is_nan() {
        let f = size(s);
        let (a, b, c) = (pixels(4, s), pixels(64, s), pixels(200, s));
        let (d, e) = (pixels(58, s), pixels(142, s));
        assert(d <= c - b - a && a + b <= e) by (nonlinear_arith)
            requires
                8 * (a * t - 4 * f) <= 5 * t,
                8 * (b * t - 64 * f) <= 5 * t,
                8 * (d * t - 58 * f) <= 5 * t,
                -5 * t <= 8 * (c * t - 200 * f),
                -5 * t <= 8 * (e * t - 142 * f),
                f >= t > 0,
        ;
    }
}

/// What the popup looks like before its sliders are drawn: away from the frame, the line and the
/// tab it has the colour of the background, and its frame is grey.
pub proof fn law_backdrop_is_framed(
    s: Value,
    width: int,
    height: int,
    title: Seq<Glyph>,
    x: int,
    y: int,
)
    requires
        uncovered(title, base_line(title, half(pixels(22, s))), x, y),
    ensures
        ({
            let tab = half(width - pixels(58, s));
            let edge = if pixels(1, s) < 1 {
                1
            } else {
                pixels(1, s)
            };
            let on_tab = in_rect(x, y, tab, 0, pixels(58, s), pixels(22, s) + 1);
            let tab_edge = on_frame(x, y, tab, 0, pixels(58, s), pixels(22, s) + 1, edge);
            let outer = on_frame(x, y, 0, 0, width, height, edge);
            let beside = 0 <= x < tab || tab + pixels(58, s) <= x < width;
            let grey = solid(Color { red: 150, green: 150, blue: 150 });
            let light = solid(Color { red: 244, green: 244, blue: 244 });
            let shown = backdrop(s, width, height, title, x, y);
            &&& tab_edge ==> shown == grey
            &&& on_tab && !tab_edge ==> shown == light
            &&& !on_tab && !tab_edge && (outer || beside && y == pixels(22, s)) ==> shown == grey
            &&& !on_tab && !tab_edge && !outer && !(beside && y == pixels(22, s)) ==> shown == light
        }),
{
    let base = base_line(title, half(pixels(22, s)));
    assert forall|p: Pixel| #[trigger] written(p, title, base, x, y, ink()) == p by {
        lemma_written_outside(p, title, base, x, y);
    }
}

} // verus!

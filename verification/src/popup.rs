//! The mixer popup: where it stands, what the pointer does to it, and when it is redrawn.

use crate::scale::is_scale;
use crate::scale::law_volume_in_range;
use crate::scale::lemma_pixels;
use crate::scale::pixels;
use crate::scale::volume_at;
use crate::scale::volume_from_y;
use crate::scale::Scale;
use crate::value::unit;
use crate::value::Value;
use vstd::arithmetic::power2::lemma_pow2_pos;
use vstd::prelude::*;

verus! {

/// The logical width of the popup.
pub const LOGICAL_WIDTH: i32 = 200;

/// The logical height of the popup.
pub const LOGICAL_HEIGHT: i32 = 320;

/// The logical column of the speaker's slider.
pub const SPEAKER_X: i32 = 58;

/// The logical column of the microphone's slider.
pub const MIC_X: i32 = 142;

/// The logical row where the tracks begin.
pub const TRACK_TOP: i32 = 88;

/// The logical row where the tracks end.
pub const TRACK_BOTTOM: i32 = 276;

/// The first mouse button in a pointer's mask.
pub const BUTTON_1: u16 = 0x100;

/// The three mouse buttons in a pointer's mask.
pub const ANY_BUTTON: u16 = 0x700;

/// How many milliseconds lie between two looks at the pointer while the popup is visible.
pub const POLL_INTERVAL_MS: u64 = 8;

/// How many milliseconds the hidden popup waits for a command.
pub const IDLE_INTERVAL_MS: u64 = 250;

/// A slider of the popup.
#[derive(Clone, Copy, Debug, PartialEq, Eq, Structural)]
pub enum SliderKind {
    Speaker,
    Mic,
}

/// What the popup is told to do.
#[derive(Clone, Copy, Debug, PartialEq, Eq, Structural)]
pub enum Command {
    Show { x: i32, y: i32 },
    Hide,
    Exit,
}

/// The part of the desktop that windows may use.
#[derive(Clone, Copy, Debug, PartialEq, Eq, Structural)]
pub struct WorkArea {
    pub x: i32,
    pub y: i32,
    pub width: i32,
    pub height: i32,
}

/// The number that the 32 bits of a `u32` stand for as an `i32`.
pub open spec fn wrapped(n: u32) -> int {
    if n < 0x8000_0000 {
        n as int
    } else {
        n - 0x1_0000_0000
    }
}

pub(crate) fn wrap(n: u32) -> (w: i32)
    ensures
        w == wrapped(n),
{
    if n < 0x8000_0000 {
        n as i32
    } else {
        (n as i64 - 0x1_0000_0000) as i32
    }
}

/// Whether a list of areas, four numbers each, has one for a desktop.
pub open spec fn lists_desktop(values: Seq<u32>, desktop: u32) -> bool {
    4 * desktop + 4 <= values.len()
}

/// The area that a list of areas, four numbers each, has for a desktop; `fallback` where it
/// has none.
pub fn work_area(values: &Vec<u32>, desktop: u32, fallback: WorkArea) -> (area: WorkArea)
    ensures
        !lists_desktop(values@, desktop) ==> area == fallback,
        lists_desktop(values@, desktop) ==> {
            &&& area.x == wrapped(values@[4 * desktop])
            &&& area.y == wrapped(values@[4 * desktop + 1])
            &&& area.width == wrapped(values@[4 * desktop + 2])
            &&& area.height == wrapped(values@[4 * desktop + 3])
        },
{
    let offset: u64 = 4 * desktop as u64;
    if (values.len() as u64) < offset + 4 {
        return fallback;
    }
    let i: usize = offset as usize;
    WorkArea {
        x: wrap(values[i]),
        y: wrap(values[i + 1]),
        width: wrap(values[i + 2]),
        height: wrap(values[i + 3]),
    }
}

/// Where something of the length `size` begins that ends where the stretch from `from` ends,
/// but never before the stretch begins.
pub open spec fn flush(from: int, length: int, size: int) -> int {
    if from + length - size < from {
        from
    } else {
        from + length - size
    }
}

/// Whether the corner of a popup can be computed.
pub open spec fn corner_fits(area: WorkArea, width: int, height: int) -> bool {
    &&& i32::MIN <= area.x + area.width <= i32::MAX
    &&& i32::MIN <= area.y + area.height <= i32::MAX
    &&& i32::MIN <= area.x + area.width - width <= i32::MAX
    &&& i32::MIN <= area.y + area.height - height <= i32::MAX
}

/// The corner of a popup that is flush with the bottom right of the work area, and inside
/// the area's left and upper edge.
pub fn popup_origin(area: WorkArea, width: i32, height: i32) -> (origin: (i32, i32))
    requires
        corner_fits(area, width as int, height as int),
    ensures
        origin.0 == flush(area.x as int, area.width as int, width as int),
        origin.1 == flush(area.y as int, area.height as int, height as int),
{
    let x: i32 = area.x + area.width - width;
    let y: i32 = area.y + area.height - height;
    (
        if x < area.x {
            area.x
        } else {
            x
        },
        if y < area.y {
            area.y
        } else {
            y
        },
    )
}

/// A popup that is not larger than the work area lies inside it and touches its bottom right
/// corner.
pub proof fn law_popup_stays_in_work_area(area: WorkArea, width: int, height: int)
    requires
        corner_fits(area, width, height),
        0 <= width <= area.width,
        0 <= height <= area.height,
    ensures
        area.x <= flush(area.x as int, area.width as int, width),
        flush(area.x as int, area.width as int, width) + width == area.x + area.width,
        area.y <= flush(area.y as int, area.height as int, height),
        flush(area.y as int, area.height as int, height) + height == area.y + area.height,
{
}

/// The mouse buttons of a pointer's mask.
pub fn button_bits(mask: u16) -> (buttons: u16)
    ensures
        buttons == mask & ANY_BUTTON,
{
    mask & ANY_BUTTON
}

/// The column of a slider.
pub open spec fn slider_column(kind: SliderKind, scale: Value) -> int {
    match kind {
        SliderKind::Speaker => pixels(SPEAKER_X as int, scale),
        SliderKind::Mic => pixels(MIC_X as int, scale),
    }
}

/// The column of a slider.
pub fn slider_x(kind: SliderKind, scale: &Scale) -> (x: i32)
    ensures
        x == slider_column(kind, scale@),
        0 <= x <= 3 * MIC_X,
{
    match kind {
        SliderKind::Speaker => scale.px(SPEAKER_X),
        SliderKind::Mic => scale.px(MIC_X),
    }
}

/// A length that is longer by two takes no fewer pixels.
pub proof fn lemma_longer(a: int, b: int, scale: Value)
    requires
        is_scale(scale),
        0 <= a,
        a + 2 <= b <= LOGICAL_HEIGHT,
    ensures
        pixels(a, scale) <= pixels(b, scale),
{
    lemma_pixels(a, scale);
    lemma_pixels(b, scale);
    lemma_pow2_pos(149);
    let t = unit();
    if !scale.is_nan() {
        let s = crate::arith::size(scale);
        let p = pixels(a, scale);
        let q = pixels(b, scale);
        assert(p <= q) by (nonlinear_arith)
            requires
                8 * (p * t - a * s) <= 5 * t,
                -5 * t <= 8 * (q * t - b * s),
                s >= t > 0,
                b - a >= 2,
        ;
    }
}

/// The rows where the tracks begin and end.
pub fn track_bounds(scale: &Scale) -> (bounds: (i32, i32))
    ensures
        bounds.0 == pixels(TRACK_TOP as int, scale@),
        bounds.1 == pixels(TRACK_BOTTOM as int, scale@),
        0 <= bounds.0 <= bounds.1 <= 3 * TRACK_BOTTOM,
{
    let top: i32 = scale.px(TRACK_TOP);
    let bottom: i32 = scale.px(TRACK_BOTTOM);
    proof {
        lemma_longer(TRACK_TOP as int, TRACK_BOTTOM as int, scale@);
    }
    (top, bottom)
}

/// Whether `n` lies no further than `radius` from `center`.
pub open spec fn near(n: int, center: int, radius: int) -> bool {
    center - radius <= n <= center + radius
}

/// The slider under a point of the popup: the point lies beside the track, or no more than a
/// little above or below it.
pub open spec fn slider_under(x: int, y: int, scale: Value) -> Option<SliderKind> {
    if y < pixels(TRACK_TOP as int, scale) - pixels(12, scale) || y > pixels(
        TRACK_BOTTOM as int,
        scale,
    ) + pixels(12, scale) {
        None
    } else if near(x, slider_column(SliderKind::Speaker, scale), pixels(26, scale)) {
        Some(SliderKind::Speaker)
    } else if near(x, slider_column(SliderKind::Mic, scale), pixels(26, scale)) {
        Some(SliderKind::Mic)
    } else {
        None
    }
}

/// The slider under a point of the popup.
pub fn slider_at(x: i32, y: i32, scale: &Scale) -> (slider: Option<SliderKind>)
    ensures
        slider == slider_under(x as int, y as int, scale@),
{
    let (top, bottom) = track_bounds(scale);
    let margin: i32 = scale.px(12);
    if y < top - margin || y > bottom + margin {
        return None;
    }
    let radius: i32 = scale.px(26);
    let speaker: i32 = slider_x(SliderKind::Speaker, scale);
    let mic: i32 = slider_x(SliderKind::Mic, scale);
    if speaker - radius <= x && x <= speaker + radius {
        Some(SliderKind::Speaker)
    } else if mic - radius <= x && x <= mic + radius {
        Some(SliderKind::Mic)
    } else {
        None
    }
}

/// Where the pointer is on the screen, and which keys and buttons are down.
#[derive(Clone, Copy, Debug, PartialEq, Eq, Structural)]
pub struct Pointer {
    pub x: i16,
    pub y: i16,
    pub mask: u16,
}

/// The state of the popup.
pub struct Popup {
    pub scale: Scale,
    pub width: u16,
    pub height: u16,
    pub origin: (i32, i32),
    pub visible: bool,
    pub buttons: u16,
    pub dragging: Option<SliderKind>,
    pub hovered: Option<SliderKind>,
    pub last_sink: Value,
    pub last_source: Value,
}

/// What a look at the pointer asks for.
#[derive(Clone, Copy, Debug, PartialEq, Eq)]
pub enum Poll {
    /// The popup is to be unmapped.
    Hide,
    /// A volume is to be set, if one is given; the popup is to be redrawn if it is dirty.
    Stay { set: Option<(SliderKind, Value)>, dirty: bool },
}

/// What a command asks for.
#[derive(Clone, Copy, Debug, PartialEq, Eq, Structural)]
pub enum PopupStep {
    Open,
    Close,
    Stop,
}

/// How far from the screen's origin the popup may stand.
pub const MAX_ORIGIN: i32 = 0x7fff_0000;

/// Whether a popup can stand in a work area.
pub open spec fn has_place(area: WorkArea, width: int, height: int) -> bool {
    &&& corner_fits(area, width, height)
    &&& -MAX_ORIGIN <= flush(area.x as int, area.width as int, width) <= MAX_ORIGIN
    &&& -MAX_ORIGIN <= flush(area.y as int, area.height as int, height) <= MAX_ORIGIN
}

impl WorkArea {
    /// Whether a popup of a given size can stand in this area.
    pub fn can_hold(&self, width: u16, height: u16) -> (yes: bool)
        ensures
            yes == has_place(*self, width as int, height as int),
    {
        let right: i64 = self.x as i64 + self.width as i64;
        let bottom: i64 = self.y as i64 + self.height as i64;
        let x: i64 = right - width as i64;
        let y: i64 = bottom - height as i64;
        let low: i64 = i32::MIN as i64;
        let high: i64 = i32::MAX as i64;
        if !(low <= right && right <= high && low <= bottom && bottom <= high && low <= x && x
            <= high && low <= y && y <= high) {
            return false;
        }
        let (left, top) = popup_origin(*self, width as i32, height as i32);
        -MAX_ORIGIN <= left && left <= MAX_ORIGIN && -MAX_ORIGIN <= top && top <= MAX_ORIGIN
    }
}

impl Popup {
    /// Whether the popup has the size that its scale gives it, and stands on the screen.
    pub open spec fn wf(self) -> bool {
        &&& self.width == pixels(LOGICAL_WIDTH as int, self.scale@)
        &&& self.height == pixels(LOGICAL_HEIGHT as int, self.scale@)
        &&& -MAX_ORIGIN <= self.origin.0 <= MAX_ORIGIN
        &&& -MAX_ORIGIN <= self.origin.1 <= MAX_ORIGIN
    }

    /// Whether two popups differ at most in what they show and how the pointer stands to them.
    pub open spec fn same_window(self, other: Popup) -> bool {
        &&& self.scale == other.scale
        &&& self.width == other.width
        &&& self.height == other.height
        &&& self.origin == other.origin
    }

    /// Whether two popups saw the same volumes last.
    pub open spec fn same_volumes(self, other: Popup) -> bool {
        self.last_sink == other.last_sink && self.last_source == other.last_source
    }

    /// A hidden popup.
    pub fn new(scale: Scale, sink: Value, source: Value) -> (popup: Popup)
        ensures
            popup.wf(),
            popup.scale == scale,
            popup.origin == (0i32, 0i32),
            !popup.visible,
            popup.buttons == 0,
            popup.dragging is None,
            popup.hovered is None,
            popup.last_sink == sink,
            popup.last_source == source,
    {
        Popup {
            scale,
            width: scale.px(LOGICAL_WIDTH) as u16,
            height: scale.px(LOGICAL_HEIGHT) as u16,
            origin: (0, 0),
            visible: false,
            buttons: 0,
            dragging: None,
            hovered: None,
            last_sink: sink,
            last_source: source,
        }
    }

    /// How many milliseconds to wait for the next command.
    pub fn wait_ms(&self) -> (ms: u64)
        ensures
            ms == (if self.visible {
                POLL_INTERVAL_MS
            } else {
                IDLE_INTERVAL_MS
            }),
    {
        if self.visible {
            POLL_INTERVAL_MS
        } else {
            IDLE_INTERVAL_MS
        }
    }

    /// What a command asks for. Where a click happened does not matter.
    pub fn handle_command(&self, command: Command) -> (step: PopupStep)
        ensures
            step == match command {
                Command::Show { .. } => PopupStep::Open,
                Command::Hide => PopupStep::Close,
                Command::Exit => PopupStep::Stop,
            },
    {
        match command {
            Command::Show { .. } => PopupStep::Open,
            Command::Hide => PopupStep::Close,
            Command::Exit => PopupStep::Stop,
        }
    }

    /// Moves the popup to the bottom right of the work area.
    pub fn place(&mut self, area: WorkArea)
        requires
            old(self).wf(),
            has_place(area, old(self).width as int, old(self).height as int),
        ensures
            final(self).wf(),
            final(self).origin.0 == flush(
                area.x as int,
                area.width as int,
                old(self).width as int,
            ),
            final(self).origin.1 == flush(
                area.y as int,
                area.height as int,
                old(self).height as int,
            ),
            *final(self) == (Popup { origin: final(self).origin, ..*old(self) }),
    {
        self.origin = popup_origin(area, self.width as i32, self.height as i32);
    }

    /// The popup becomes visible. The buttons that are down at this moment were not pressed
    /// on the popup.
    pub fn open(&mut self, mask: Option<u16>)
        requires
            old(self).wf(),
        ensures
            final(self).wf(),
            final(self).same_window(*old(self)),
            final(self).same_volumes(*old(self)),
            final(self).visible,
            final(self).dragging is None,
            final(self).hovered is None,
            final(self).buttons == match mask {
                Some(mask) => mask & ANY_BUTTON,
                None => 0,
            },
    {
        self.dragging = None;
        self.hovered = None;
        self.buttons = match mask {
            Some(mask) => button_bits(mask),
            None => 0,
        };
        self.visible = true;
    }

    /// The popup is no longer visible.
    pub fn close(&mut self)
        requires
            old(self).wf(),
        ensures
            final(self).wf(),
            final(self).same_window(*old(self)),
            final(self).same_volumes(*old(self)),
            final(self).buttons == old(self).buttons,
            !final(self).visible,
            final(self).dragging is None,
            final(self).hovered is None,
    {
        self.visible = false;
        self.dragging = None;
        self.hovered = None;
    }

    /// Whether a pointer stands on the popup.
    pub open spec fn holds(self, pointer: Pointer) -> bool {
        &&& 0 <= pointer.x - self.origin.0 < self.width
        &&& 0 <= pointer.y - self.origin.1 < self.height
    }

    /// The slider under a pointer.
    pub open spec fn under(self, pointer: Pointer) -> Option<SliderKind> {
        if self.holds(pointer) {
            slider_under(pointer.x - self.origin.0, pointer.y - self.origin.1, self.scale@)
        } else {
            None
        }
    }

    /// The buttons that went down since the last look.
    pub open spec fn pressed(self, pointer: Pointer) -> u16 {
        (pointer.mask & ANY_BUTTON) & !self.buttons
    }

    /// The slider that follows a pointer: the one that the first button was just pressed on,
    /// else the one that was dragged before. The pointer moves it once more when the
    /// button is released.
    pub open spec fn grabbed(self, pointer: Pointer) -> Option<SliderKind> {
        if self.pressed(pointer) & BUTTON_1 != 0 {
            self.under(pointer)
        } else {
            self.dragging
        }
    }

    /// The volume at the height of a pointer.
    pub open spec fn volume_under(self, pointer: Pointer) -> Value {
        volume_at(
            pointer.y - self.origin.1,
            pixels(TRACK_TOP as int, self.scale@),
            pixels(TRACK_BOTTOM as int, self.scale@),
        )
    }

    /// Looks at the pointer. A button that is pressed beside the popup hides it. The first
    /// button drags the slider that it was pressed on.
    pub fn poll_pointer(&mut self, pointer: Pointer) -> (poll: Poll)
        requires
            old(self).wf(),
        ensures
            final(self).wf(),
            final(self).same_window(*old(self)),
            final(self).same_volumes(*old(self)),
            final(self).visible == old(self).visible,
            final(self).buttons == pointer.mask & ANY_BUTTON,
            poll is Hide <==> old(self).pressed(pointer) != 0 && !old(self).holds(pointer),
            poll is Hide ==> {
                &&& final(self).dragging == old(self).dragging
                &&& final(self).hovered == old(self).hovered
            },
            poll matches Poll::Stay { set, dirty } ==> {
                let grabbed = old(self).grabbed(pointer);
                let under = old(self).under(pointer);
                let down = (pointer.mask & ANY_BUTTON) & BUTTON_1 != 0;
                let fresh = old(self).pressed(pointer) & BUTTON_1 != 0;
                &&& set == match grabbed {
                    Some(kind) => Some((kind, old(self).volume_under(pointer))),
                    None => None,
                }
                &&& dirty == (grabbed is Some || under != old(self).hovered)
                &&& final(self).dragging == (if down {
                    grabbed
                } else {
                    None
                })
                &&& final(self).hovered == (if !fresh && down && grabbed is Some {
                    grabbed
                } else {
                    under
                })
            },
    {
        let buttons: u16 = button_bits(pointer.mask);
        let pressed: u16 = buttons & !self.buttons;
        let down: bool = buttons & BUTTON_1 != 0;
        proof {
            let b = self.buttons;
            assert((buttons & !b) & 0x100 != 0 ==> buttons & 0x100 != 0) by (bit_vector);
        }
        let x: i32 = pointer.x as i32 - self.origin.0;
        let y: i32 = pointer.y as i32 - self.origin.1;
        let inside: bool = x >= 0 && y >= 0 && x < self.width as i32 && y < self.height as i32;
        if pressed != 0 && !inside {
            self.buttons = buttons;
            return Poll::Hide;
        }
        let under = if inside {
            slider_at(x, y, &self.scale)
        } else {
            None
        };
        let mut dirty: bool = !same_slider(under, self.hovered);
        self.hovered = under;
        let mut moved: Option<SliderKind> = None;
        if pressed & BUTTON_1 != 0 {
            self.dragging = under;
            moved = under;
        } else if down {
            if let Some(kind) = self.dragging {
                moved = Some(kind);
                self.hovered = Some(kind);
            }
        } else {
            moved = self.dragging;
            self.dragging = None;
        }
        let mut set: Option<(SliderKind, Value)> = None;
        if let Some(kind) = moved {
            let (top, bottom) = track_bounds(&self.scale);
            set = Some((kind, volume_from_y(y, top, bottom)));
            dirty = true;
        }
        self.buttons = buttons;
        Poll::Stay { set, dirty }
    }

    /// Notes the volumes, and says whether the popup has to be redrawn: it was dirty, or a
    /// volume is not the one that was seen last.
    pub fn note_volumes(&mut self, sink: Value, source: Value, dirty: bool) -> (redraw: bool)
        requires
            old(self).wf(),
        ensures
            redraw == (dirty || sink != old(self).last_sink || source != old(self).last_source),
            *final(self) == (Popup { last_sink: sink, last_source: source, ..*old(self) }),
    {
        let changed: bool = sink.bits != self.last_sink.bits || source.bits
            != self.last_source.bits;
        if changed {
            self.last_sink = sink;
            self.last_source = source;
        }
        dirty || changed
    }
}

fn same_slider(a: Option<SliderKind>, b: Option<SliderKind>) -> (same: bool)
    ensures
        same == (a == b),
{
    match (a, b) {
        (None, None) => true,
        (Some(x), Some(y)) => x == y,
        _ => false,
    }
}

/// Whatever the pointer does, the volume that it sets lies between zero and one and a half.
pub proof fn law_set_volume_is_in_range(popup: Popup, pointer: Pointer)
    requires
        popup.wf(),
        is_scale(popup.scale@),
        !popup.scale@.is_nan(),
    ensures
        !popup.volume_under(pointer).is_nan(),
        0 <= 2 * popup.volume_under(pointer).scaled() <= 3 * unit(),
{
    let s = popup.scale@;
    let top = pixels(TRACK_TOP as int, s);
    let bottom = pixels(TRACK_BOTTOM as int, s);
    lemma_pixels(TRACK_TOP as int, s);
    lemma_pixels(TRACK_BOTTOM as int, s);
    lemma_pow2_pos(149);
    let t = unit();
    let f = crate::arith::size(s);
    assert(top < bottom) by (nonlinear_arith)
        requires
            8 * (top * t - 88 * f) <= 5 * t,
            -5 * t <= 8 * (bottom * t - 276 * f),
            f >= t > 0,
    ;
    law_volume_in_range(pointer.y - popup.origin.1, top, bottom);
}

/// The number that the bits of a `u32` stand for lies in the range of an `i32`, and differs from
/// it by nothing or by two to the 32nd.
pub proof fn law_wrapping_keeps_the_bits(n: u32)
    ensures
        i32::MIN <= wrapped(n) <= i32::MAX,
        wrapped(n) == n || wrapped(n) == n - 0x1_0000_0000,
{
}

/// The measures of the popup, and of a pointer's mask.
pub proof fn law_measures_of_the_popup()
    ensures
        LOGICAL_WIDTH == 200,
        LOGICAL_HEIGHT == 320,
        SPEAKER_X == 58,
        MIC_X == 142,
        TRACK_TOP == 88,
        TRACK_BOTTOM == 276,
        BUTTON_1 == 0x100,
        ANY_BUTTON == 0x700,
        POLL_INTERVAL_MS == 8,
        IDLE_INTERVAL_MS == 250,
        forall|kind: SliderKind, s: Value|
            #[trigger] slider_column(kind, s) == pixels(
                if kind == SliderKind::Speaker {
                    58
                } else {
                    142
                },
                s,
            ),
{
}

/// The slider under a point lies beside the point: no more than 26 logical pixels to a side, and
/// no more than 12 above or below the track. A point that is as near to a slider's track has a
/// slider under it, and of two the speaker's.
pub proof fn law_slider_is_beside_the_point(x: int, y: int, s: Value)
    ensures
        ({
            let tall = pixels(88, s) - pixels(12, s) <= y <= pixels(276, s) + pixels(12, s);
            let speaker = pixels(58, s) - pixels(26, s) <= x <= pixels(58, s) + pixels(26, s);
            let mic = pixels(142, s) - pixels(26, s) <= x <= pixels(142, s) + pixels(26, s);
            &&& slider_under(x, y, s) == Some(SliderKind::Speaker) <==> tall && speaker
            &&& slider_under(x, y, s) == Some(SliderKind::Mic) <==> tall && mic && !speaker
            &&& slider_under(x, y, s) is None <==> !(tall && (speaker || mic))
        }),
{
}

/// A button counts as pressed exactly if it is down now and was not down before.
pub proof fn law_pressed_means_newly_down(popup: Popup, pointer: Pointer, button: u16)
    requires
        button == 0x100 || button == 0x200 || button == 0x400,
    ensures
        popup.pressed(pointer) & button != 0 <==> pointer.mask & button != 0 && popup.buttons
            & button == 0,
{
    let m = pointer.mask;
    let b = popup.buttons;
    assert(((m & 0x700) & !b) & button != 0 <==> m & button != 0 && b & button == 0)
        by (bit_vector)
        requires
            button == 0x100u16 || button == 0x200u16 || button == 0x400u16,
    ;
}

/// A pointer is on the popup exactly if it lies in the rectangle of the popup's size at its
/// place. A fresh press of the first button grabs the slider under it, and only such a press
/// grabs; a slider that was grabbed before is kept.
pub proof fn law_presses_grab_what_is_under_them(popup: Popup, pointer: Pointer)
    ensures
        popup.holds(pointer) <==> popup.origin.0 <= pointer.x < popup.origin.0 + popup.width
            && popup.origin.1 <= pointer.y < popup.origin.1 + popup.height,
        !popup.holds(pointer) ==> popup.under(pointer) is None,
        popup.holds(pointer) ==> popup.under(pointer) == slider_under(
            pointer.x - popup.origin.0,
            pointer.y - popup.origin.1,
            popup.scale@,
        ),
        pointer.mask & 0x100 != 0 && popup.buttons & 0x100 == 0 ==> popup.grabbed(pointer)
            == popup.under(pointer),
        !(pointer.mask & 0x100 != 0 && popup.buttons & 0x100 == 0) ==> popup.grabbed(pointer)
            == popup.dragging,
        popup.volume_under(pointer) == volume_at(
            pointer.y - popup.origin.1,
            pixels(88, popup.scale@),
            pixels(276, popup.scale@),
        ),
{
    law_pressed_means_newly_down(popup, pointer, 0x100);
}

} // verus!

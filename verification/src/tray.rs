//! The tray item: its icons, its menu, and what a click on it does.

use crate::popup::wrap;
use crate::popup::wrapped;
use crate::popup::Command;
use vstd::prelude::*;

verus! {

/// How many nanoseconds after a click a second one counts as a double click.
pub const DOUBLE_CLICK_WINDOW_NS: u64 = 300_000_000;

/// What the tray asks of the main window.
#[derive(Clone, Copy, Debug, PartialEq, Eq, Structural)]
pub enum TrayAction {
    Initialize,
    OpenMainWindow,
    Exit,
}

/// What a click on the tray item, or on its menu, does: it tells the mixer popup something,
/// and may ask something of the main window.
#[derive(Clone, Copy, Debug, PartialEq, Eq, Structural)]
pub struct Reaction {
    pub popup: Command,
    pub action: Option<TrayAction>,
}

/// The state of the tray item: when it was clicked last, in nanoseconds.
pub struct Tray {
    pub last_click: Option<u64>,
}

impl Tray {
    /// A tray item that was not clicked yet.
    pub fn new() -> (tray: Tray)
        ensures
            tray.last_click is None,
    {
        Tray { last_click: None }
    }

    /// Whether a click at the time `now` is the second one of a double click.
    pub open spec fn doubles(self, now: u64) -> bool {
        match self.last_click {
            Some(last) => now - last <= DOUBLE_CLICK_WINDOW_NS,
            None => false,
        }
    }

    /// The tray item after a click.
    pub open spec fn clicked(self, now: u64) -> Tray {
        Tray {
            last_click: if self.doubles(now) {
                None
            } else {
                Some(now)
            },
        }
    }

    /// A click. It opens the mixer popup at once; the second one of a double click hides the
    /// popup and opens the main window, and the next click begins anew.
    pub fn activate(&mut self, x: i32, y: i32, now: u64) -> (reaction: Reaction)
        ensures
            *final(self) == old(self).clicked(now),
            reaction == (if old(self).doubles(now) {
                Reaction { popup: Command::Hide, action: Some(TrayAction::OpenMainWindow) }
            } else {
                Reaction { popup: Command::Show { x, y }, action: None }
            }),
    {
        let double: bool = match self.last_click {
            Some(last) => now < last || now - last <= DOUBLE_CLICK_WINDOW_NS,
            None => false,
        };
        if double {
            self.last_click = None;
            Reaction { popup: Command::Hide, action: Some(TrayAction::OpenMainWindow) }
        } else {
            self.last_click = Some(now);
            Reaction { popup: Command::Show { x, y }, action: None }
        }
    }
}

/// Of three clicks in quick succession the second is the second one of a double click, and
/// the third begins anew. A click that comes late begins anew as well.
pub proof fn law_double_click(tray: Tray, first: u64, second: u64, third: u64)
    requires
        !tray.doubles(first),
        first <= second,
    ensures
        tray.clicked(first).doubles(second) <==> second - first <= DOUBLE_CLICK_WINDOW_NS,
        tray.clicked(first).doubles(second) ==> !tray.clicked(first).clicked(second).doubles(third),
{
}

/// Where a click happened. Some hosts report the origin in place of the position; then the
/// pointer tells it, if it is known.
pub fn activation_position(x: i32, y: i32, pointer: Option<(i16, i16)>) -> (position: (i32, i32))
    ensures
        match pointer {
            Some((px, py)) if x == 0 && y == 0 => position.0 == px && position.1 == py,
            _ => position == (x, y),
        },
{
    if x != 0 || y != 0 {
        return (x, y);
    }
    match pointer {
        Some((px, py)) => (px as i32, py as i32),
        None => (x, y),
    }
}

/// An entry of the menu.
pub enum MenuEntry {
    Item { label: String, icon_name: String, action: TrayAction },
    Separator,
}

/// Whether an entry has a label, an icon and an action.
pub open spec fn offers(
    entry: MenuEntry,
    label: Seq<char>,
    icon_name: Seq<char>,
    action: TrayAction,
) -> bool {
    match entry {
        MenuEntry::Item { label: l, icon_name: i, action: a } => l@ == label && i@ == icon_name && a
            == action,
        MenuEntry::Separator => false,
    }
}

/// The menu of the tray item.
pub fn menu() -> (entries: Vec<MenuEntry>)
    ensures
        entries@.len() == 4,
        offers(entries@[0], "Initialize"@, "audio-card"@, TrayAction::Initialize),
        offers(entries@[1], "Open Main Window"@, "window-new"@, TrayAction::OpenMainWindow),
        entries@[2] is Separator,
        offers(entries@[3], "Exit"@, "application-exit"@, TrayAction::Exit),
{
    let mut entries: Vec<MenuEntry> = Vec::new();
    entries.push(
        MenuEntry::Item {
            label: "Initialize".to_owned(),
            icon_name: "audio-card".to_owned(),
            action: TrayAction::Initialize,
        },
    );
    entries.push(
        MenuEntry::Item {
            label: "Open Main Window".to_owned(),
            icon_name: "window-new".to_owned(),
            action: TrayAction::OpenMainWindow,
        },
    );
    entries.push(MenuEntry::Separator);
    entries.push(
        MenuEntry::Item {
            label: "Exit".to_owned(),
            icon_name: "application-exit".to_owned(),
            action: TrayAction::Exit,
        },
    );
    entries
}

/// What choosing an entry of the menu does: the popup hides, and the main window is asked.
pub fn choose_entry(action: TrayAction) -> (reaction: Reaction)
    ensures
        reaction == (Reaction { popup: Command::Hide, action: Some(action) }),
{
    Reaction { popup: Command::Hide, action: Some(action) }
}

/// What opening the menu does: the popup hides.
pub fn menu_about_to_show() -> (reaction: Reaction)
    ensures
        reaction == (Reaction { popup: Command::Hide, action: None }),
{
    Reaction { popup: Command::Hide, action: None }
}

/// A decoded image: four bytes for each pixel, in the order red, green, blue, opacity.
pub struct Image {
    pub rgba: Vec<u8>,
    pub width: u32,
    pub height: u32,
}

/// The pixels, the width and the height of the image that a PNG file holds, if it holds one.
pub uninterp spec fn png_image(file: Seq<u8>) -> Option<(Seq<u8>, u32, u32)>;

/// Calls `eframe::icon_data::from_png_bytes`. Claims that whether it succeeds, and with which
/// image, depends on the bytes of the file alone, and that an image has four bytes for
/// each pixel.
#[verifier::external_body]
fn decode_png(file: &Vec<u8>) -> (image: Option<Image>)
    ensures
        match image {
            Some(i) => png_image(file@) == Some((i.rgba@, i.width, i.height)) && i.rgba@.len() == 4
                * (i.width * i.height),
            None => png_image(file@) is None,
        },
{
    eframe::icon_data::from_png_bytes(file).ok().map(
        |icon| Image { rgba: icon.rgba, width: icon.width, height: icon.height },
    )
}

/// An icon as the tray wants it: four bytes for each pixel, in the order opacity, red,
/// green, blue.
pub struct Icon {
    pub width: i32,
    pub height: i32,
    pub data: Vec<u8>,
}

/// The bytes of an image with the opacity of each pixel moved to its front. Bytes at the end
/// that make no full pixel stay.
pub open spec fn opacity_first(rgba: Seq<u8>) -> Seq<u8> {
    Seq::new(
        rgba.len(),
        |i: int|
            if i >= rgba.len() - rgba.len() % 4 {
                rgba[i]
            } else if i % 4 == 0 {
                rgba[i + 3]
            } else {
                rgba[i - 1]
            },
    )
}

/// Moves the opacity of each pixel to its front.
pub fn argb_icon(image: Image) -> (icon: Icon)
    ensures
        icon.width == wrapped(image.width),
        icon.height == wrapped(image.height),
        icon.data@ == opacity_first(image.rgba@),
{
    let mut data: Vec<u8> = Vec::new();
    let n: usize = image.rgba.len();
    let full: usize = n - n % 4;
    let ghost goal = opacity_first(image.rgba@);
    let mut i: usize = 0;
    assert(data@ =~= goal.take(0));
    while i < n
        invariant
            i <= n,
            n == image.rgba@.len(),
            full == n - n % 4,
            goal == opacity_first(image.rgba@),
            data@ == goal.take(i as int),
        decreases n - i,
    {
        let byte: u8 = if i >= full {
            image.rgba[i]
        } else if i % 4 == 0 {
            image.rgba[i + 3]
        } else {
            image.rgba[i - 1]
        };
        assert(byte == goal[i as int]);
        assert(goal.take(i + 1) =~= goal.take(i as int).push(byte));
        data.push(byte);
        i += 1;
    }
    assert(goal.take(i as int) =~= goal);
    Icon { width: wrap(image.width), height: wrap(image.height), data }
}

/// The icon that a PNG file holds, if it holds an image.
pub fn icon_from_png(file: &Vec<u8>) -> (icon: Option<Icon>)
    ensures
        icon is Some <==> png_image(file@) is Some,
        icon matches Some(i) ==> {
            let image = png_image(file@)->0;
            &&& i.data@ == opacity_first(image.0)
            &&& i.width == wrapped(image.1)
            &&& i.height == wrapped(image.2)
            &&& i.data@.len() == 4 * (image.1 * image.2)
        },
{
    match decode_png(file) {
        Some(image) => Some(argb_icon(image)),
        None => None,
    }
}

/// Moving the opacity loses nothing: each byte of a full pixel is found again.
pub proof fn law_opacity_moves_only(rgba: Seq<u8>, pixel: int)
    requires
        0 <= pixel,
        4 * pixel + 4 <= rgba.len(),
    ensures
        opacity_first(rgba).len() == rgba.len(),
        opacity_first(rgba)[4 * pixel] == rgba[4 * pixel + 3],
        opacity_first(rgba)[4 * pixel + 1] == rgba[4 * pixel],
        opacity_first(rgba)[4 * pixel + 2] == rgba[4 * pixel + 1],
        opacity_first(rgba)[4 * pixel + 3] == rgba[4 * pixel + 2],
{
}

/// Two clicks make a double click exactly if no more than 300 milliseconds lie between them.
/// A click that is the second one of a double click is forgotten, any other is remembered.
pub proof fn law_double_click_takes_three_tenths(tray: Tray, now: u64)
    ensures
        tray.last_click is None ==> !tray.doubles(now),
        tray.last_click matches Some(last) ==> (tray.doubles(now) <==> now - last <= 300_000_000),
        tray.doubles(now) ==> tray.clicked(now).last_click is None,
        !tray.doubles(now) ==> tray.clicked(now).last_click == Some(now),
{
}

} // verus!

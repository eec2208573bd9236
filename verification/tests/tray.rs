use eframe::icon_data::IconDataExt;
use g6_control::popup::Command;
use g6_control::tray::{
    activation_position, argb_icon, choose_entry, icon_from_png, menu, menu_about_to_show, Image,
    MenuEntry, Reaction, Tray, TrayAction, DOUBLE_CLICK_WINDOW_NS,
};

#[test]
fn single_click_opens_mixer_immediately() {
    let mut tray = Tray::new();
    let reaction = tray.activate(41, 73, 1_000);
    assert_eq!(reaction.popup, Command::Show { x: 41, y: 73 });
    assert_eq!(reaction.action, None);
}

#[test]
fn activation_keeps_coordinates_supplied_by_the_host() {
    assert_eq!(activation_position(41, 73, None), (41, 73));
}

#[test]
fn activation_at_the_origin_asks_the_pointer() {
    assert_eq!(activation_position(41, 73, Some((5, 6))), (41, 73));
    assert_eq!(activation_position(0, 73, Some((5, 6))), (0, 73));
    assert_eq!(activation_position(0, 0, Some((5, -6))), (5, -6));
    assert_eq!(activation_position(0, 0, None), (0, 0));
}

#[test]
fn second_click_immediately_opens_main_window() {
    let mut tray = Tray::new();
    let first = tray.activate(41, 73, 1_000);
    let second = tray.activate(41, 73, 2_000);
    assert_eq!(first.popup, Command::Show { x: 41, y: 73 });
    assert_eq!(second.popup, Command::Hide);
    assert_eq!(first.action, None);
    assert_eq!(second.action, Some(TrayAction::OpenMainWindow));
}

#[test]
fn third_and_late_clicks_begin_anew() {
    let mut tray = Tray::new();
    tray.activate(1, 1, 0);
    assert_eq!(
        tray.activate(1, 1, DOUBLE_CLICK_WINDOW_NS).action,
        Some(TrayAction::OpenMainWindow)
    );
    assert_eq!(tray.activate(1, 1, DOUBLE_CLICK_WINDOW_NS + 1).action, None);
    assert_eq!(
        tray.activate(1, 1, 2 * DOUBLE_CLICK_WINDOW_NS + 2).action,
        None
    );
}

#[test]
fn menu_items_queue_the_three_actions() {
    let mut labels = Vec::new();
    let mut actions = Vec::new();
    for entry in menu() {
        if let MenuEntry::Item { label, action, .. } = entry {
            labels.push(label);
            let reaction = choose_entry(action);
            assert_eq!(reaction.popup, Command::Hide);
            actions.push(reaction.action);
        }
    }
    assert_eq!(labels, ["Initialize", "Open Main Window", "Exit"]);
    assert_eq!(
        actions,
        [
            Some(TrayAction::Initialize),
            Some(TrayAction::OpenMainWindow),
            Some(TrayAction::Exit),
        ]
    );
}

#[test]
fn menu_hides_the_popup() {
    assert_eq!(
        menu_about_to_show(),
        Reaction {
            popup: Command::Hide,
            action: None
        }
    );
    assert!(matches!(menu()[2], MenuEntry::Separator));
}

fn picture(size: u32) -> eframe::egui::IconData {
    let rgba = (0..size * size * 4).map(|i| (i * 7 % 251) as u8).collect();
    eframe::egui::IconData {
        rgba,
        width: size,
        height: size,
    }
}

#[test]
fn tray_pixmaps_are_valid_argb_images() {
    let icons: Vec<_> = [16, 22, 24, 32, 48, 64]
        .into_iter()
        .map(|size| picture(size).to_png_bytes().unwrap())
        .map(|png| icon_from_png(&png).unwrap())
        .collect();
    let sizes: Vec<i32> = icons.iter().map(|icon| icon.width).collect();
    assert_eq!(sizes, [16, 22, 24, 32, 48, 64]);
    for icon in &icons {
        assert_eq!(icon.width, icon.height);
        assert_eq!(icon.data.len(), (icon.width * icon.height * 4) as usize);
    }
}

#[test]
fn decoded_icons_have_the_opacity_first() {
    let image = picture(16);
    let png = image.to_png_bytes().unwrap();
    let icon = icon_from_png(&png).unwrap();
    for (from, to) in image.rgba.chunks(4).zip(icon.data.chunks(4)) {
        assert_eq!(to, [from[3], from[0], from[1], from[2]]);
    }
    assert!(icon_from_png(&vec![1, 2, 3]).is_none());
}

#[test]
fn bytes_without_a_full_pixel_stay() {
    let icon = argb_icon(Image {
        rgba: vec![1, 2, 3, 4, 5, 6],
        width: 1,
        height: u32::MAX,
    });
    assert_eq!(icon.data, [4, 1, 2, 3, 5, 6]);
    assert_eq!((icon.width, icon.height), (1, -1));
}

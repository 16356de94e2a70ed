use codex_gauge::codes;
use codex_gauge::overlay::{
    centered, color_for, format_reset, overlay_wndproc, paint, placement, rgb, right_aligned, Anchor, Answer, Draw,
    Font,
};
use codex_gauge::percent::Percent;
use codex_gauge::quota::{Quota, Window};
use codex_gauge::tray::{bus_wndproc, handle_tray, menu, tooltip, Click, TIP};

const GREEN: (u8, u8, u8) = (76, 175, 80);
const AMBER: (u8, u8, u8) = (255, 193, 7);
const RED: (u8, u8, u8) = (229, 57, 53);

fn percent(x: f64) -> Percent {
    Percent { bits: x.to_bits() }
}

fn window(used: f64, resets_at: i64, window_mins: i64) -> Window {
    Window { used_percent: percent(used), resets_at, window_mins }
}

#[test]
fn colors_are_packed_red_first() {
    assert_eq!(rgb(0x12, 0x34, 0x56), 0x0056_3412);
    assert_eq!(rgb(255, 255, 255), 0x00FF_FFFF);
    assert_eq!(rgb(24, 24, 30), 24 | (24 << 8) | (30 << 16));
}

#[test]
fn usage_is_color_coded() {
    let cases = [
        (0.0, GREEN),
        (59.9, GREEN),
        (60.0, AMBER),
        (84.9, AMBER),
        (85.0, RED),
        (100.0, RED),
        (f64::NAN, RED),
    ];
    for (used, want) in cases {
        assert_eq!(color_for(percent(used)), want);
    }
}

#[test]
fn the_countdown_counts_whole_minutes() {
    let cases = [
        (0, "resetting soon"),
        (-5, "resetting soon"),
        (1, "resets in 0m"),
        (59, "resets in 0m"),
        (60, "resets in 1m"),
        (3599, "resets in 59m"),
        (3600, "resets in 1h 0m"),
        (4980, "resets in 1h 23m"),
        (604_800, "resets in 168h 0m"),
    ];
    for (secs, want) in cases {
        assert_eq!(format_reset(1_700_000_000 + secs, 1_700_000_000), want);
    }
    assert_eq!(format_reset(0, i64::MAX), "resetting soon");
    assert_eq!(format_reset(i64::MAX, 0), "resets in 2562047788015215h 30m");
}

#[test]
fn texts_are_aligned_by_their_width() {
    assert_eq!(right_aligned(222, 30), 192);
    assert_eq!(centered(236, 100), 68);
    assert_eq!(centered(236, 101), 67);
    assert_eq!(centered(100, 101), 0);
    assert_eq!(centered(100, 103), -1);
}

fn describe(d: &Draw) -> String {
    match d {
        Draw::Fill { color, left, top, right, bottom } => format!("fill {color:06x} {left},{top} {right},{bottom}"),
        Draw::Text { color, font, anchor, y, text } => format!("text {color:06x} {font:?} {anchor:?} {y} {text}"),
        Draw::Icon { x, y, size } => format!("icon {x},{y} {size}"),
    }
}

fn described(quota: &Quota, now: i64) -> Vec<String> {
    paint(quota, 236, 122, now).iter().map(describe).collect()
}

#[test]
fn both_windows_are_shown() {
    let quota = Quota {
        primary: Some(window(12.0, 5000, 300)),
        secondary: Some(window(85.5, 9000, 10_080)),
        connected: true,
    };
    let want = vec![
        "fill 1e1818 0,0 236,122".to_string(),
        "text a29896 Small Left(14) 12 5h".to_string(),
        "text 50af4c Big Right(222) 10 12%".to_string(),
        "fill 463b39 14,32 222,38".to_string(),
        "fill 50af4c 14,32 39,38".to_string(),
        "text a29896 Small Left(14) 46 1w".to_string(),
        "text 3539e5 Big Right(222) 44 86%".to_string(),
        "fill 463b39 14,66 222,72".to_string(),
        "fill 3539e5 14,66 192,72".to_string(),
        "fill 362d2b 14,92 222,93".to_string(),
        "text 968b88 Small Left(14) 98 resets in 1h 23m".to_string(),
        "text 8a7c78 Small Right(222) 98 Codex".to_string(),
    ];
    assert_eq!(described(&quota, 20), want);
}

#[test]
fn a_single_window_takes_the_first_row() {
    let quota = Quota { primary: None, secondary: Some(window(0.1, 0, 0)), connected: true };
    let want = vec![
        "fill 1e1818 0,0 236,122".to_string(),
        "text a29896 Small Left(14) 12 quota".to_string(),
        "text 50af4c Big Right(222) 10 0%".to_string(),
        "fill 463b39 14,32 222,38".to_string(),
        "fill 362d2b 14,92 222,93".to_string(),
        "text 968b88 Small Left(14) 98 Connected".to_string(),
        "text 8a7c78 Small Right(222) 98 Codex".to_string(),
    ];
    assert_eq!(described(&quota, 0), want);
}

#[test]
fn without_data_there_is_one_line() {
    let want = vec![
        "fill 1e1818 0,0 236,122".to_string(),
        "icon 102,32 32".to_string(),
        "text b6acaa Offline Center(236) 68 Connecting...".to_string(),
    ];
    assert_eq!(described(&Quota::disconnected(), 0), want);
    let stale = Quota { primary: Some(window(1.0, 1, 1)), secondary: None, connected: false };
    assert_eq!(described(&stale, 0), want);
}

#[test]
fn figures_out_of_range_are_clamped_when_painted() {
    let quota = Quota { primary: Some(window(250.0, 0, 45)), secondary: None, connected: true };
    let drawn = described(&quota, 0);
    assert_eq!(drawn[2], "text 3539e5 Big Right(222) 10 100%");
    assert_eq!(drawn[4], "fill 3539e5 14,32 222,38");
}

#[test]
fn everything_is_drawn_inside_the_window() {
    for used in [0.0, 33.3, 66.6, 100.0] {
        let quota = Quota { primary: Some(window(used, 1, 300)), secondary: Some(window(used, 1, 1)), connected: true };
        for d in paint(&quota, 236, 122, 0) {
            match d {
                Draw::Fill { left, right, .. } => assert!(0 <= left && left <= right && right <= 236),
                Draw::Text { anchor: Anchor::Left(x), .. } => assert_eq!(x, 14),
                Draw::Text { anchor: Anchor::Right(x), .. } => assert_eq!(x, 222),
                other => panic!("{other:?}"),
            }
        }
    }
    assert_eq!(paint(&Quota::disconnected(), i32::MIN + 32, 0, 0).len(), 3);
}

#[test]
fn fonts_have_their_sizes() {
    assert_eq!(Font::Small.size(), (-12, 400));
    assert_eq!(Font::Big.size(), (-13, 550));
    assert_eq!(Font::Offline.size(), (-16, 550));
}

#[test]
fn the_overlay_stands_at_the_top_right() {
    let p = placement(1920);
    assert_eq!((p.x, p.y, p.width, p.height), (1660, 24, 236, 122));
}

#[test]
fn messages_to_the_overlay_are_answered() {
    assert_eq!(overlay_wndproc(codes::WM_NCHITTEST, 0), Answer::TitleBar);
    assert_eq!(overlay_wndproc(codes::WM_PAINT, 0), Answer::Paint);
    assert_eq!(overlay_wndproc(codes::WM_ERASEBKGND, 0), Answer::Erased);
    assert_eq!(overlay_wndproc(codes::WM_COMMAND, 0x7_0000 + 1001), Answer::Post(codes::WM_APP_REFRESH));
    assert_eq!(overlay_wndproc(codes::WM_COMMAND, 1002), Answer::Post(codes::WM_APP_QUIT));
    assert_eq!(overlay_wndproc(codes::WM_COMMAND, 5), Answer::Done);
    assert_eq!(overlay_wndproc(codes::WM_DESTROY, 0), Answer::Quit);
    assert_eq!(overlay_wndproc(codes::WM_TIMER, 0), Answer::Default);
}

#[test]
fn the_tooltip_fits_its_slot() {
    let slot = tooltip(TIP, 128);
    assert_eq!(slot.len(), 128);
    assert_eq!(String::from_utf16(&slot[..11]).unwrap(), "Codex Usage");
    assert!(slot[11..].iter().all(|&u| u == 0));
    let text: Vec<u16> = "Cod".encode_utf16().chain(Some(0)).collect();
    assert_eq!(tooltip(TIP, 4), text);
    assert_eq!(tooltip(TIP, 1), vec![0]);
    assert_eq!(tooltip("Cod", 4), text);
}

#[test]
fn clicks_toggle_or_open_the_menu() {
    assert_eq!(handle_tray(0x1_0202, true), vec![Click::Hide, Click::Redraw]);
    assert_eq!(handle_tray(0x0202, false), vec![Click::Show, Click::Update, Click::Redraw]);
    assert_eq!(handle_tray(0x0205, true), vec![Click::Menu]);
    assert_eq!(handle_tray(0x0200, true), vec![]);
}

#[test]
fn the_menu_has_two_items() {
    assert_eq!(menu(), vec![(1001, "Refresh"), (1002, "Exit")]);
}

#[test]
fn the_bus_listens_to_the_tray_icon() {
    assert!(bus_wndproc(codes::WM_TRAY));
    assert!(!bus_wndproc(codes::WM_TIMER));
}

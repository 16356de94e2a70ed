//! The floating overlay: where it stands, what it shows, and how it answers
//! the messages it gets.
use crate::codes::{
    low_word, low_word_of, CMD_EXIT, CMD_REFRESH, WM_APP_QUIT, WM_APP_REFRESH, WM_COMMAND, WM_DESTROY,
    WM_ERASEBKGND, WM_NCHITTEST, WM_PAINT,
};
use crate::percent::{bar_stays_in_its_track, clamped_is_in_range, Percent};
use crate::quota::{window_label, Quota, Window};
use crate::text::{decimal, decimal_text, join};
use vstd::prelude::*;

verus! {

/// The distance of the contents from the left and right edges.
pub const MARGIN: i32 = 14;

/// A color as the number that GDI takes: red in the lowest byte.
pub open spec fn color_number(r: u8, g: u8, b: u8) -> u32 {
    (r + 0x100 * g + 0x1_0000 * b) as u32
}

/// Build a GDI color from r/g/b (0-255).
pub fn rgb(r: u8, g: u8, b: u8) -> (c: u32)
    ensures
        c == color_number(r, g, b),
{
    r as u32 + 0x100 * (g as u32) + 0x1_0000 * (b as u32)
}

/// The status color: green below 60 percent, amber below 85, else red.
pub open spec fn status_color(used: Percent) -> (u8, u8, u8) {
    if used.below(60) {
        (76, 175, 80)
    } else if used.below(85) {
        (255, 193, 7)
    } else {
        (229, 57, 53)
    }
}

/// The color that tells how much of a quota is used.
pub fn color_for(used: Percent) -> (r: (u8, u8, u8))
    ensures
        r == status_color(used),
{
    if used.below_sixty() {
        (76, 175, 80)  // green
    } else if used.below_eighty_five() {
        (255, 193, 7)  // amber
    } else {
        (229, 57, 53)  // red
    }
}

/// The countdown to a reset `secs` seconds away.
pub open spec fn countdown(secs: int) -> Seq<char> {
    if secs <= 0 {
        "resetting soon"@
    } else if secs < 3600 {
        "resets in "@ + decimal(secs / 60) + "m"@
    } else {
        "resets in "@ + decimal(secs / 3600) + "h "@ + decimal(secs / 60 % 60) + "m"@
    }
}

/// The line that tells when the quota is reset, at the time `now`.
pub fn format_reset(epoch: i64, now: i64) -> (r: String)
    requires
        i64::MIN <= epoch - now <= i64::MAX,
    ensures
        r@ == countdown(epoch - now),
{
    let secs: i64 = epoch - now;
    if secs <= 0 {
        return "resetting soon".to_string();
    }
    let mins: i64 = secs / 60;
    let h: i64 = mins / 60;
    let m: i64 = mins % 60;
    if h > 0 {
        let hours = join("resets in ", decimal_text(h).as_str(), "h ");
        join(hours.as_str(), decimal_text(m).as_str(), "m")
    } else {
        join("resets in ", decimal_text(m).as_str(), "m")
    }
}

/// Half of `n`, rounded towards zero.
pub open spec fn half(n: int) -> int {
    if n < 0 {
        -((-n) / 2)
    } else {
        n / 2
    }
}

fn half_of(n: i32) -> (r: i32)
    ensures
        r == half(n as int),
{
    if n < 0 {
        (-((-(n as i64)) / 2)) as i32
    } else {
        n / 2
    }
}

/// Where a text of this width starts that ends at `right`.
pub fn right_aligned(right: i32, text_width: i32) -> (x: i32)
    requires
        i32::MIN <= right - text_width <= i32::MAX,
    ensures
        x == right - text_width,
{
    right - text_width
}

/// Where a text of this width starts that is centered in `width`.
pub fn centered(width: i32, text_width: i32) -> (x: i32)
    requires
        i32::MIN <= width - text_width <= i32::MAX,
    ensures
        x == half(width - text_width),
{
    half_of(width - text_width)
}

/// The fonts in use.
#[derive(Clone, Copy, Debug, PartialEq, Eq, Structural)]
pub enum Font {
    /// Labels and secondary text.
    Small,
    /// The "used %" figures.
    Big,
    /// The line that is shown while there is no data.
    Offline,
}

impl Font {
    /// The height (negative: of the characters) and the weight of the font.
    pub fn size(self) -> (r: (i32, i32))
        ensures
            r == match self {
                Font::Small => (-12i32, 400i32),
                Font::Big => (-13i32, 550i32),
                Font::Offline => (-16i32, 550i32),
            },
    {
        match self {
            Font::Small => (-12, 400),
            Font::Big => (-13, 550),
            Font::Offline => (-16, 550),
        }
    }
}

/// Where a text stands: what is known before it has been measured.
#[derive(Clone, Copy, Debug, PartialEq, Eq, Structural)]
pub enum Anchor {
    /// It starts at this place.
    Left(i32),
    /// It ends at this place.
    Right(i32),
    /// It is centered in this width.
    Center(i32),
}

/// One thing to draw.
#[derive(Debug)]
pub enum Draw {
    /// A filled rectangle.
    Fill { color: u32, left: i32, top: i32, right: i32, bottom: i32 },
    /// A text.
    Text { color: u32, font: Font, anchor: Anchor, y: i32, text: String },
    /// The application's icon.
    Icon { x: i32, y: i32, size: i32 },
}

/// One thing to draw, with its text spelled out.
pub enum Stroke {
    Fill { color: u32, left: int, top: int, right: int, bottom: int },
    Text { color: u32, font: Font, anchor: Anchor, y: int, text: Seq<char> },
    Icon { x: int, y: int, size: int },
}

impl View for Draw {
    type V = Stroke;

    open spec fn view(&self) -> Stroke {
        match self {
            Draw::Fill { color, left, top, right, bottom } => Stroke::Fill {
                color: *color,
                left: *left as int,
                top: *top as int,
                right: *right as int,
                bottom: *bottom as int,
            },
            Draw::Text { color, font, anchor, y, text } => Stroke::Text {
                color: *color,
                font: *font,
                anchor: *anchor,
                y: *y as int,
                text: text@,
            },
            Draw::Icon { x, y, size } => Stroke::Icon { x: *x as int, y: *y as int, size: *size as int },
        }
    }
}

/// A list of things to draw, spelled out.
pub open spec fn strokes(draws: Seq<Draw>) -> Seq<Stroke> {
    Seq::new(draws.len(), |i: int| draws[i]@)
}

/// The status color of a window.
pub open spec fn window_color(win: Window) -> u32 {
    let (r, g, b) = status_color(win.used_percent.clamp_spec());
    color_number(r, g, b)
}

/// The figure that tells how much of a window is used.
pub open spec fn figure(win: Window) -> Seq<char> {
    decimal(win.used_percent.clamp_spec().rounded_spec()) + "%"@
}

/// How long the filled part of a window's bar is in an overlay of width `w`.
pub open spec fn bar_length(win: Window, w: int) -> int {
    win.used_percent.clamp_spec().fill_spec(w - 2 * MARGIN)
}

/// Row number `i`: the label, the figure, the track of the bar, and its filled
/// part unless that is empty.
pub open spec fn row(win: Window, i: int, w: int) -> Seq<Stroke> {
    let y = 12 + 34 * i;
    let right = w - MARGIN;
    seq![
        Stroke::Text {
            color: color_number(150, 152, 162),
            font: Font::Small,
            anchor: Anchor::Left(MARGIN),
            y,
            text: window_label(win.window_mins as int),
        },
        Stroke::Text {
            color: window_color(win),
            font: Font::Big,
            anchor: Anchor::Right(right as i32),
            y: y - 2,
            text: figure(win),
        },
        Stroke::Fill {
            color: color_number(57, 59, 70),
            left: MARGIN as int,
            top: y + 20,
            right,
            bottom: y + 26,
        },
    ] + (if bar_length(win, w) > 0 {
        seq![
            Stroke::Fill {
                color: window_color(win),
                left: MARGIN as int,
                top: y + 20,
                right: MARGIN + bar_length(win, w),
                bottom: y + 26,
            },
        ]
    } else {
        Seq::empty()
    })
}

/// The rows of the first `n` windows.
pub open spec fn rows(wins: Seq<Window>, n: nat, w: int) -> Seq<Stroke>
    decreases n,
{
    if n == 0 {
        Seq::empty()
    } else {
        rows(wins, (n - 1) as nat, w) + row(wins[n - 1], n - 1, w)
    }
}

/// The footer line: when the next reset comes, where that is known.
pub open spec fn footer(quota: Quota, now: int) -> Seq<char> {
    match quota.soonest_reset() {
        Some(win) => countdown(win.resets_at - now),
        None => "Connected"@,
    }
}

/// The background of an overlay of width `w` and height `h`.
pub open spec fn background(w: int, h: int) -> Seq<Stroke> {
    seq![Stroke::Fill { color: color_number(24, 24, 30), left: 0, top: 0, right: w, bottom: h }]
}

/// The divider, the reset line and the brand mark.
pub open spec fn footer_strokes(quota: Quota, w: int, now: int) -> Seq<Stroke> {
    let right = w - MARGIN;
    seq![
        Stroke::Fill { color: color_number(43, 45, 54), left: MARGIN as int, top: 92, right, bottom: 93 },
        Stroke::Text {
            color: color_number(136, 139, 150),
            font: Font::Small,
            anchor: Anchor::Left(MARGIN),
            y: 98,
            text: footer(quota, now),
        },
        Stroke::Text {
            color: color_number(120, 124, 138),
            font: Font::Small,
            anchor: Anchor::Right(right as i32),
            y: 98,
            text: "Codex"@,
        },
    ]
}

/// What is shown while there is no data.
pub open spec fn offline_strokes(w: int) -> Seq<Stroke> {
    seq![
        Stroke::Icon { x: half(w - 32), y: 32, size: 32 },
        Stroke::Text {
            color: color_number(170, 172, 182),
            font: Font::Offline,
            anchor: Anchor::Center(w as i32),
            y: 68,
            text: "Connecting..."@,
        },
    ]
}

/// All that is drawn into an overlay of width `w` and height `h`.
pub open spec fn picture(quota: Quota, w: int, h: int, now: int) -> Seq<Stroke> {
    if quota.connected {
        background(w, h) + rows(quota.windows(), quota.windows().len(), w) + footer_strokes(quota, w, now)
    } else {
        background(w, h) + offline_strokes(w)
    }
}

fn put(draws: &mut Vec<Draw>, draw: Draw)
    ensures
        strokes(final(draws)@) == strokes(old(draws)@).push(draw@),
{
    draws.push(draw);
    assert(strokes(draws@) =~= strokes(old(draws)@).push(draw@));
}

fn put_row(draws: &mut Vec<Draw>, win: &Window, i: i32, w: i32)
    requires
        0 <= i < 2,
        w >= i32::MIN + 32,
    ensures
        strokes(final(draws)@) == strokes(old(draws)@) + row(*win, i as int, w as int),
{
    let used = win.used_percent.clamp();
    let left: i32 = MARGIN;
    let right: i32 = w - MARGIN;
    let y: i32 = 12 + i * 34;
    let ghost start = strokes(draws@);

    // Label (small, muted) anchored left.
    put(
        draws,
        Draw::Text {
            color: rgb(150, 152, 162),
            font: Font::Small,
            anchor: Anchor::Left(left),
            y,
            text: win.label(),
        },
    );

    // Primary figure (big, follows status color) anchored right.
    let (r, g, b) = color_for(used);
    proof {
        reveal_strlit("");
    }
    put(
        draws,
        Draw::Text {
            color: rgb(r, g, b),
            font: Font::Big,
            anchor: Anchor::Right(right),
            y: y - 2,
            text: join(decimal_text(used.round() as i64).as_str(), "%", ""),
        },
    );

    // Progress bar (below the text row): full-width track.
    let bar_y: i32 = y + 20;
    put(draws, Draw::Fill { color: rgb(57, 59, 70), left, top: bar_y, right, bottom: bar_y + 6 });
    let fill_w: i32 = used.fill(right - left);
    if fill_w > 0 {
        proof {
            bar_stays_in_its_track(used, right - left);
        }
        put(draws, Draw::Fill { color: rgb(r, g, b), left, top: bar_y, right: left + fill_w, bottom: bar_y + 6 });
    }
    assert(strokes(draws@) =~= start + row(*win, i as int, w as int));
}

/// Two stacked rows: label, figure, bar.
fn put_rows(draws: &mut Vec<Draw>, quota: &Quota, w: i32)
    requires
        w >= i32::MIN + 32,
    ensures
        strokes(final(draws)@) == strokes(old(draws)@) + rows(quota.windows(), quota.windows().len(), w as int),
{
    let ghost wins = quota.windows();
    let ghost start = strokes(draws@);
    let mut i: i32 = 0;
    assert(start + rows(wins, 0, w as int) =~= start);
    if let Some(win) = &quota.primary {
        assert(wins[0] == *win);
        put_row(draws, win, 0, w);
        i = 1;
        assert(rows(wins, 1, w as int) =~= row(*win, 0, w as int));
    }
    assert(strokes(draws@) =~= start + rows(wins, i as nat, w as int));
    if let Some(win) = &quota.secondary {
        assert(wins[i as int] == *win && wins.len() == i + 1);
        put_row(draws, win, i, w);
        assert(strokes(draws@) =~= start + rows(wins, (i + 1) as nat, w as int));
    }
}

/// The divider, the reset line and the brand mark.
fn put_footer(draws: &mut Vec<Draw>, quota: &Quota, w: i32, now: i64)
    requires
        w >= i32::MIN + 32,
        quota.soonest_reset() matches Some(win) ==> i64::MIN <= win.resets_at - now <= i64::MAX,
    ensures
        strokes(final(draws)@) == strokes(old(draws)@) + footer_strokes(*quota, w as int, now as int),
{
    let left: i32 = MARGIN;
    let right: i32 = w - MARGIN;
    let ghost start = strokes(draws@);

    // Thin divider separating the figures from the reset line.
    put(draws, Draw::Fill { color: rgb(43, 45, 54), left, top: 92, right, bottom: 93 });

    // Reset line (small, faint) anchored left under the divider.
    let second = match quota.next_reset() {
        Some(win) => format_reset(win.resets_at, now),
        None => "Connected".to_string(),
    };
    put(
        draws,
        Draw::Text {
            color: rgb(136, 139, 150),
            font: Font::Small,
            anchor: Anchor::Left(left),
            y: 98,
            text: second,
        },
    );

    // Brand mark in the bottom-right corner.
    put(
        draws,
        Draw::Text {
            color: rgb(120, 124, 138),
            font: Font::Small,
            anchor: Anchor::Right(right),
            y: 98,
            text: "Codex".to_string(),
        },
    );
    assert(strokes(draws@) =~= start + footer_strokes(*quota, w as int, now as int));
}

/// Not connected: the application's icon and a larger terse centered line.
fn put_offline(draws: &mut Vec<Draw>, w: i32)
    requires
        w >= i32::MIN + 32,
    ensures
        strokes(final(draws)@) == strokes(old(draws)@) + offline_strokes(w as int),
{
    let ghost start = strokes(draws@);
    put(draws, Draw::Icon { x: half_of(w - 32), y: 32, size: 32 });
    put(
        draws,
        Draw::Text {
            color: rgb(170, 172, 182),
            font: Font::Offline,
            anchor: Anchor::Center(w),
            y: 68,
            text: "Connecting...".to_string(),
        },
    );
    assert(strokes(draws@) =~= start + offline_strokes(w as int));
}

/// Everything that the overlay shows, in the order in which it is drawn.
pub fn paint(quota: &Quota, w: i32, h: i32, now: i64) -> (r: Vec<Draw>)
    requires
        w >= i32::MIN + 32,
        quota.soonest_reset() matches Some(win) ==> i64::MIN <= win.resets_at - now <= i64::MAX,
    ensures
        strokes(r@) == picture(*quota, w as int, h as int, now as int),
{
    let mut draws: Vec<Draw> = Vec::new();
    put(&mut draws, Draw::Fill { color: rgb(24, 24, 30), left: 0, top: 0, right: w, bottom: h });
    assert(strokes(draws@) =~= background(w as int, h as int));
    if quota.connected {
        put_rows(&mut draws, quota, w);
        put_footer(&mut draws, quota, w, now);
    } else {
        put_offline(&mut draws, w);
    }
    draws
}

/// The size and the place of the overlay on the screen.
#[derive(Clone, Copy, Debug, PartialEq, Eq, Structural)]
pub struct Placement {
    pub x: i32,
    pub y: i32,
    pub width: i32,
    pub height: i32,
}

/// The width of the overlay.
pub const WIDTH: i32 = 236;

/// The height of the overlay.
pub const HEIGHT: i32 = 122;

/// The distance of the overlay from the edges of the screen.
pub const GAP: i32 = 24;

/// The diameter of the rounded corners (radius 12).
pub const CORNER: i32 = 24;

/// How opaque the overlay is, out of 255.
pub const ALPHA: u8 = 235;

/// Places the overlay at the top-right of a screen of this width.
pub fn placement(screen_width: i32) -> (r: Placement)
    requires
        screen_width >= i32::MIN + WIDTH + GAP,
    ensures
        r.x + r.width + GAP == screen_width,
        r.x == screen_width - 260,
        r.y == GAP,
        r.width == WIDTH,
        r.height == HEIGHT,
{
    Placement { x: screen_width - WIDTH - GAP, y: GAP, width: WIDTH, height: HEIGHT }
}

/// How the overlay answers a message.
#[derive(Clone, Copy, Debug, PartialEq, Eq, Structural)]
pub enum Answer {
    /// The place under the cursor counts as the title bar, so that the overlay
    /// can be dragged by holding anywhere on it.
    TitleBar,
    /// Paint.
    Paint,
    /// The background counts as erased.
    Erased,
    /// Post this message, to be handled by the main loop.
    Post(u32),
    /// Nothing is left to be done.
    Done,
    /// End the main loop.
    Quit,
    /// Leave the message to the system.
    Default,
}

/// How the overlay answers the message `msg` with the parameter `wparam`.  The
/// items of the tray's menu are handed on to the main loop.
pub open spec fn answer(msg: u32, wparam: usize) -> Answer {
    if msg == WM_NCHITTEST {
        Answer::TitleBar
    } else if msg == WM_PAINT {
        Answer::Paint
    } else if msg == WM_ERASEBKGND {
        Answer::Erased
    } else if msg == WM_COMMAND {
        if low_word(wparam) == CMD_REFRESH {
            Answer::Post(WM_APP_REFRESH)
        } else if low_word(wparam) == CMD_EXIT {
            Answer::Post(WM_APP_QUIT)
        } else {
            Answer::Done
        }
    } else if msg == WM_DESTROY {
        Answer::Quit
    } else {
        Answer::Default
    }
}

/// Decides how the overlay answers a message.
pub fn overlay_wndproc(msg: u32, wparam: usize) -> (r: Answer)
    ensures
        r == answer(msg, wparam),
{
    match msg {
        WM_NCHITTEST => Answer::TitleBar,
        WM_PAINT => Answer::Paint,
        WM_ERASEBKGND => Answer::Erased,
        WM_COMMAND => {
            let cmd: u32 = low_word_of(wparam);
            if cmd == CMD_REFRESH {
                Answer::Post(WM_APP_REFRESH)
            } else if cmd == CMD_EXIT {
                Answer::Post(WM_APP_QUIT)
            } else {
                Answer::Done
            }
        },
        WM_DESTROY => Answer::Quit,
        _ => Answer::Default,
    }
}

/// The color that a stroke is drawn in.
pub open spec fn stroke_color(s: Stroke) -> u32 {
    match s {
        Stroke::Fill { color, .. } => color,
        Stroke::Text { color, .. } => color,
        Stroke::Icon { .. } => 0,
    }
}

/// Both the figure and the filled part of the bar take the status color.
pub proof fn figure_and_bar_share_the_status_color(win: Window, i: int, w: int)
    ensures
        stroke_color(row(win, i, w)[1]) == window_color(win),
        row(win, i, w).len() == 4 ==> stroke_color(row(win, i, w)[3]) == window_color(win),
        row(win, i, w).len() == 4 <==> bar_length(win, w) > 0,
{
}

/// A stroke lies between the left and right edges of an overlay of width `w`,
/// as far as that is known before its text has been measured.
pub open spec fn within(s: Stroke, w: int) -> bool {
    match s {
        Stroke::Fill { left, right, .. } => 0 <= left <= right <= w,
        Stroke::Text { anchor: Anchor::Left(x), .. } => 0 <= x <= w,
        Stroke::Text { anchor: Anchor::Right(x), .. } => 0 <= x <= w,
        Stroke::Text { anchor: Anchor::Center(x), .. } => x == w,
        Stroke::Icon { x, size, .. } => 0 <= x && x + size <= w,
    }
}

proof fn lemma_row_stays_within(win: Window, i: int, w: int)
    requires
        2 * MARGIN <= w <= i32::MAX,
    ensures
        forall|k: int| 0 <= k < row(win, i, w).len() ==> within(#[trigger] row(win, i, w)[k], w),
{
    clamped_is_in_range(win.used_percent);
    bar_stays_in_its_track(win.used_percent.clamp_spec(), w - 2 * MARGIN);
}

proof fn lemma_rows_stay_within(wins: Seq<Window>, n: nat, w: int)
    requires
        2 * MARGIN <= w <= i32::MAX,
    ensures
        forall|k: int| 0 <= k < rows(wins, n, w).len() ==> within(#[trigger] rows(wins, n, w)[k], w),
    decreases n,
{
    if n > 0 {
        lemma_rows_stay_within(wins, (n - 1) as nat, w);
        lemma_row_stays_within(wins[n - 1], n - 1, w);
        let before = rows(wins, (n - 1) as nat, w);
        assert forall|k: int| 0 <= k < rows(wins, n, w).len() implies within(#[trigger] rows(wins, n, w)[k], w) by {
            if k < before.len() {
                assert(rows(wins, n, w)[k] == before[k]);
            } else {
                assert(rows(wins, n, w)[k] == row(wins[n - 1], n - 1, w)[k - before.len()]);
            }
        }
    }
}

/// Nothing is drawn beyond the left and right edges of an overlay that is wide
/// enough for its icon.
pub proof fn picture_stays_within(quota: Quota, w: int, h: int, now: int)
    requires
        32 <= w <= i32::MAX,
    ensures
        forall|k: int|
            0 <= k < picture(quota, w, h, now).len() ==> within(#[trigger] picture(quota, w, h, now)[k], w),
{
    let wins = quota.windows();
    let all = picture(quota, w, h, now);
    lemma_rows_stay_within(wins, wins.len(), w);
    if quota.connected {
        let first = background(w, h);
        let middle = rows(wins, wins.len(), w);
        let last = footer_strokes(quota, w, now);
        assert forall|k: int| 0 <= k < all.len() implies within(#[trigger] all[k], w) by {
            if k < first.len() {
                assert(all[k] == first[k]);
            } else if k < first.len() + middle.len() {
                assert(all[k] == middle[k - first.len()]);
            } else {
                assert(all[k] == last[k - first.len() - middle.len()]);
            }
        }
    }
}

/// Without data there is one line of text, centered, whatever the windows hold.
pub proof fn offline_picture_has_one_line(quota: Quota, w: int, h: int, now: int)
    requires
        !quota.connected,
    ensures
        forall|k: int|
            0 <= k < picture(quota, w, h, now).len() && #[trigger] picture(quota, w, h, now)[k] is Text ==> k == 2
                && picture(quota, w, h, now)[k]->text == "Connecting..."@,
        picture(quota, w, h, now).len() == 3,
        picture(quota, w, h, now)[2] is Text,
{
}

} // verus!

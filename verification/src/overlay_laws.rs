//! What can be read off the overlay, and what its messages lead to.
use crate::codes::{
    CMD_EXIT, CMD_REFRESH, WM_APP_QUIT, WM_APP_REFRESH, WM_COMMAND, WM_DESTROY, WM_ERASEBKGND, WM_NCHITTEST,
    WM_PAINT,
};
use crate::double::one;
use crate::overlay::{
    answer, background, bar_length, color_number, countdown, figure, footer, footer_strokes, half, picture,
    row, rows, status_color, window_color, Anchor, Answer, Font, Stroke, ALPHA, CORNER, GAP, HEIGHT, MARGIN, WIDTH,
};
use crate::percent::{bar_stays_in_its_track, clamped_is_in_range, Percent};
use crate::percent_laws::{
    bar_is_in_proportion, clamping_moves_only_what_lies_outside, is_nearest_integer, nearest_integer_is_unique,
    no_number_fills_no_bar, rounding_gives_the_nearest_integer,
};
use crate::quota::{next_reset_is_soonest, window_label, Quota, Window};
use crate::quota_laws::windows_are_all_there;
use crate::text::{decimal, spelled};
use crate::text_laws::{integer_text_is_unique, integers_are_spelled, is_integer_text, is_numeral};
use vstd::arithmetic::mul::lemma_mul_inequality;
use vstd::arithmetic::power2::lemma_pow2_pos;
use vstd::prelude::*;

verus! {

/// A countdown tells the whole minutes that are left, as hours and minutes; the
/// hours are left out where there is none.
pub proof fn countdown_tells_hours_and_minutes(
    secs: int,
    h: int,
    m: int,
    hours: Seq<char>,
    minutes: Seq<char>,
)
    requires
        secs > 0,
        h >= 0,
        0 <= m < 60,
        60 * (60 * h + m) <= secs < 60 * (60 * h + m) + 60,
        is_integer_text(hours, h),
        is_integer_text(minutes, m),
    ensures
        h == 0 ==> countdown(secs) == "resets in "@ + minutes + "m"@,
        h > 0 ==> countdown(secs) == "resets in "@ + hours + "h "@ + minutes + "m"@,
{
    integers_are_spelled(h);
    integers_are_spelled(m);
    integer_text_is_unique(hours, decimal(h), h);
    integer_text_is_unique(minutes, decimal(m), m);
    assert(secs / 60 == 60 * h + m);
    assert(secs / 60 % 60 == m);
    assert(secs / 3600 == h);
}

/// A reset that is due or past is about to happen.
pub proof fn due_resets_come_soon(secs: int)
    requires
        secs <= 0,
    ensures
        countdown(secs) == "resetting soon"@,
{
}

/// Countdowns that differ in whole minutes are told apart, and only those.
pub proof fn countdowns_tell_minutes_apart(a: int, b: int)
    requires
        a > 0,
        b > 0,
    ensures
        countdown(a) == countdown(b) <==> a / 60 == b / 60,
{
    let (h, m) = (a / 3600, a / 60 % 60);
    let (i, n) = (b / 3600, b / 60 % 60);
    integers_are_spelled(h);
    integers_are_spelled(m);
    integers_are_spelled(i);
    integers_are_spelled(n);
    countdown_tells_hours_and_minutes(a, h, m, decimal(h), decimal(m));
    countdown_tells_hours_and_minutes(b, i, n, decimal(i), decimal(n));
    if countdown(a) == countdown(b) {
        reveal_strlit("resets in ");
        reveal_strlit("h ");
        reveal_strlit("m");
        let s = countdown(a);
        let t = countdown(b);
        let x = s.subrange(10, s.len() - 1);
        let y = t.subrange(10, t.len() - 1);
        if h == 0 {
            assert(x =~= decimal(m));
        } else {
            assert(x =~= decimal(h) + "h "@ + decimal(m));
            assert(x[decimal(h).len() as int] == 'h');
        }
        if i == 0 {
            assert(y =~= decimal(n));
        } else {
            assert(y =~= decimal(i) + "h "@ + decimal(n));
            assert(y[decimal(i).len() as int] == 'h');
        }
        if h > 0 && i > 0 {
            let k = decimal(h).len() as int;
            let l = decimal(i).len() as int;
            if k < l {
                assert(y[k] == decimal(i)[k]);
            } else if l < k {
                assert(x[l] == decimal(h)[l]);
            }
            assert(decimal(h) =~= x.take(k));
            assert(decimal(i) =~= y.take(k));
            assert(decimal(m) =~= x.skip(k + 2));
            assert(decimal(n) =~= y.skip(k + 2));
        } else if h > 0 {
            assert(y[decimal(h).len() as int] == decimal(n)[decimal(h).len() as int]);
        } else if i > 0 {
            assert(x[decimal(i).len() as int] == decimal(m)[decimal(i).len() as int]);
        }
        assert(h == i && m == n);
        assert(a / 60 == 60 * h + m && b / 60 == 60 * i + n);
    }
}

/// A color holds its three parts, a byte each, the red one lowest.
pub proof fn colors_hold_their_parts(r: u8, g: u8, b: u8)
    ensures
        color_number(r, g, b) % 0x100 == r,
        color_number(r, g, b) / 0x100 % 0x100 == g,
        color_number(r, g, b) / 0x1_0000 == b,
{
}

/// `color` is the one that tells how much is used: green below 60 percent, amber
/// from there to below 85, and red from there on.
pub open spec fn is_status_color(color: u32, used: Percent) -> bool {
    if used.is_number() && used.value() < 60 * one() {
        color == 76 + 0x100 * 175 + 0x1_0000 * 80
    } else if used.is_number() && used.value() < 85 * one() {
        color == 255 + 0x100 * 193 + 0x1_0000 * 7
    } else {
        color == 229 + 0x100 * 57 + 0x1_0000 * 53
    }
}

/// The status color tells in which of the three ranges a percentage lies.
pub proof fn status_color_tells_the_range(used: Percent)
    ensures
        ({
            let (r, g, b) = status_color(used);
            is_status_color(color_number(r, g, b), used)
        }),
{
}

/// A window has the status color of its percentage; that the percentage is
/// clamped changes no color.
pub proof fn window_has_its_status_color(win: Window)
    ensures
        is_status_color(window_color(win), win.used_percent),
{
    lemma_pow2_pos(1074);
    clamping_moves_only_what_lies_outside(win.used_percent);
}

/// The value that is shown of a percentage: itself, or the end of the range from
/// 0 to 100 that it lies beyond.
pub open spec fn shown_value(used: Percent) -> int {
    if !used.is_number() || used.value() < 0 {
        0
    } else if used.value() > 100 * one() {
        100 * one() as int
    } else {
        used.value()
    }
}

/// A figure spells the integer nearest to the percentage, and a percent sign.
pub open spec fn shows_percentage(text: Seq<char>, used: Percent) -> bool {
    &&& text.len() > 1
    &&& text.last() == '%'
    &&& is_numeral(text.drop_last(), spelled(text.drop_last()))
    &&& is_nearest_integer(spelled(text.drop_last()), shown_value(used))
}

/// The figure of every window shows its percentage.
pub proof fn figure_shows_the_percentage(win: Window)
    ensures
        shows_percentage(figure(win), win.used_percent),
{
    let used = win.used_percent;
    let p = used.clamp_spec();
    let n = p.rounded_spec();
    reveal_strlit("%");
    lemma_pow2_pos(1074);
    clamping_moves_only_what_lies_outside(used);
    rounding_gives_the_nearest_integer(p);
    assert(i32::MIN * one() <= 0) by (nonlinear_arith);
    if n < 0 {
        lemma_mul_inequality(n, -1, one() as int);
        assert(is_nearest_integer(n, shown_value(used)));
    }
    if !used.is_number() {
        assert(0 * one() == 0) by (nonlinear_arith);
    }
    integers_are_spelled(n);
    assert(figure(win).drop_last() =~= decimal(n));
}

/// A whole percentage `n` is shown as the numeral of `n` and a percent sign.
pub proof fn whole_percentages_are_shown(win: Window, n: nat, numeral: Seq<char>)
    requires
        n <= 100,
        win.used_percent.is_number(),
        win.used_percent.value() == n * one(),
        is_integer_text(numeral, n as int),
    ensures
        figure(win) == numeral.push('%'),
{
    figure_shows_the_percentage(win);
    lemma_pow2_pos(1074);
    lemma_mul_inequality(n as int, 100, one() as int);
    let shown = figure(win).drop_last();
    nearest_integer_is_unique(spelled(shown), n as int, (n * one()) as int);
    integer_text_is_unique(shown, numeral, n as int);
    assert(figure(win) =~= shown.push('%'));
}

/// The overlay is 236 pixels wide and 122 high, nearly opaque, with rounded
/// corners, and stands off the edges of the screen.
pub proof fn overlay_has_its_measures()
    ensures
        WIDTH == 236,
        HEIGHT == 122,
        GAP == 24,
        CORNER == 2 * 12,
        ALPHA == 235,
        2 * MARGIN < WIDTH,
{
}

/// Half of a number, towards zero: twice it is the number, or one less in
/// magnitude.
pub proof fn halves_are_halves(n: int)
    ensures
        n >= 0 ==> 0 <= n - 2 * half(n) <= 1,
        n <= 0 ==> -1 <= n - 2 * half(n) <= 0,
{
}

/// A bar is filled in proportion to the percentage, to within what rounding to
/// whole pixels takes.
pub open spec fn is_in_proportion(filled: int, track: int, used: Percent) -> bool {
    -(51 * one()) <= 100 * (filled * one()) - track * shown_value(used) <= 51 * one()
}

/// The strokes of one row show a window: its label on the left, its figure on
/// the right, and below them the bar, filled as far as the percentage goes.
pub open spec fn row_shows(strokes: Seq<Stroke>, win: Window, y: int, w: int) -> bool {
    &&& 3 <= strokes.len() <= 4
    &&& strokes[0] == Stroke::Text {
        color: (150 + 0x100 * 152 + 0x1_0000 * 162) as u32,
        font: Font::Small,
        anchor: Anchor::Left(14),
        y,
        text: window_label(win.window_mins as int),
    }
    &&& strokes[1] matches Stroke::Text { color, font, anchor, y: at, text }
    &&& is_status_color(color, win.used_percent)
    &&& font == Font::Big
    &&& anchor == Anchor::Right((w - 14) as i32)
    &&& at == y - 2
    &&& shows_percentage(text, win.used_percent)
    &&& strokes[2] == Stroke::Fill {
        color: (57 + 0x100 * 59 + 0x1_0000 * 70) as u32,
        left: 14,
        top: y + 20,
        right: w - 14,
        bottom: y + 26,
    }
    &&& strokes.len() == 4 ==> {
        &&& strokes[3] matches Stroke::Fill { color: c, left, top, right, bottom }
        &&& is_status_color(c, win.used_percent)
        &&& left == 14
        &&& top == y + 20
        &&& bottom == y + 26
        &&& 14 < right
        &&& w >= 28 ==> right <= w - 14 && is_in_proportion(right - 14, w - 28, win.used_percent)
    }
    &&& strokes.len() == 3 && w >= 28 ==> is_in_proportion(0, w - 28, win.used_percent)
    &&& w < 28 ==> strokes.len() == 3
}

/// Every row shows its window.
pub proof fn row_shows_its_window(win: Window, i: int, w: int)
    requires
        i32::MIN + 32 <= w <= i32::MAX,
    ensures
        row_shows(row(win, i, w), win, 12 + 34 * i, w),
{
    let used = win.used_percent;
    let p = used.clamp_spec();
    figure_shows_the_percentage(win);
    window_has_its_status_color(win);
    clamping_moves_only_what_lies_outside(used);
    clamped_is_in_range(used);
    bar_stays_in_its_track(p, w - 28);
    let filled = bar_length(win, w);
    if w >= 28 {
        if used.is_number() {
            bar_is_in_proportion(p, w - 28);
        } else {
            no_number_fills_no_bar(p, w - 28);
            assert(0 * one() == 0) by (nonlinear_arith);
            assert((w - 28) * 0 == 0) by (nonlinear_arith);
        }
    }
    assert(row(win, i, w).len() == if filled > 0 { 4int } else { 3 });
}

/// `t` is the earliest known reset time of a quota.
pub open spec fn is_earliest_reset(t: int, quota: Quota) -> bool {
    &&& t > 0
    &&& (quota.primary matches Some(p) && p.resets_at == t) || (quota.secondary matches Some(s) && s.resets_at == t)
    &&& quota.primary matches Some(p) ==> p.resets_at <= 0 || t <= p.resets_at
    &&& quota.secondary matches Some(s) ==> s.resets_at <= 0 || t <= s.resets_at
}

/// `text` tells when the next reset comes, where that is known.
pub open spec fn is_reset_line(text: Seq<char>, quota: Quota, now: int) -> bool {
    ||| exists|t: int| #[trigger] is_earliest_reset(t, quota) && text == countdown(t - now)
    ||| {
        &&& quota.primary matches Some(p) ==> p.resets_at <= 0
        &&& quota.secondary matches Some(s) ==> s.resets_at <= 0
        &&& text == "Connected"@
    }
}

/// The strokes show a connected quota: the background, a row for each window, of
/// which the short one's ends before `a` and the long one's before `b`, and then
/// the divider, the reset line and the brand mark.
pub open spec fn shows_quota(pic: Seq<Stroke>, quota: Quota, w: int, h: int, now: int, a: int, b: int) -> bool {
    &&& 1 <= a <= b
    &&& pic.len() == b + 3
    &&& pic[0] == Stroke::Fill {
        color: (24 + 0x100 * 24 + 0x1_0000 * 30) as u32,
        left: 0,
        top: 0,
        right: w,
        bottom: h,
    }
    &&& match quota.primary {
        Some(win) => row_shows(pic.subrange(1, a), win, 12, w),
        None => a == 1,
    }
    &&& match quota.secondary {
        Some(win) => row_shows(
            pic.subrange(a, b),
            win,
            if quota.primary is Some {
                46
            } else {
                12
            },
            w,
        ),
        None => b == a,
    }
    &&& pic[b] == Stroke::Fill {
        color: (43 + 0x100 * 45 + 0x1_0000 * 54) as u32,
        left: 14,
        top: 92,
        right: w - 14,
        bottom: 93,
    }
    &&& pic[b + 1] matches Stroke::Text { color, font, anchor, y, text }
    &&& color == 136 + 0x100 * 139 + 0x1_0000 * 150
    &&& font == Font::Small
    &&& anchor == Anchor::Left(14)
    &&& y == 98
    &&& is_reset_line(text, quota, now)
    &&& pic[b + 2] == Stroke::Text {
        color: (120 + 0x100 * 124 + 0x1_0000 * 138) as u32,
        font: Font::Small,
        anchor: Anchor::Right((w - 14) as i32),
        y: 98,
        text: "Codex"@,
    }
}

/// A connected quota is shown in full: every window has its row, the short one
/// above the long one, and the reset line speaks of the next reset.
pub proof fn connected_quota_is_shown(quota: Quota, w: int, h: int, now: int)
    requires
        quota.connected,
        i32::MIN + 32 <= w <= i32::MAX,
    ensures
        exists|a: int, b: int| shows_quota(picture(quota, w, h, now), quota, w, h, now, a, b),
{
    let pic = picture(quota, w, h, now);
    let wins = quota.windows();
    windows_are_all_there(quota);
    let first: Seq<Stroke> = match quota.primary {
        Some(win) => row(win, 0, w),
        None => Seq::empty(),
    };
    let second: Seq<Stroke> = match quota.secondary {
        Some(win) => row(win, if quota.primary is Some { 1 } else { 0 }, w),
        None => Seq::empty(),
    };
    reveal_with_fuel(rows, 3);
    assert(rows(wins, wins.len(), w) =~= first + second);
    let a = 1 + first.len() as int;
    let b = a + second.len() as int;
    assert(pic =~= background(w, h) + (first + second) + footer_strokes(quota, w, now));
    assert(pic.subrange(1, a) =~= first);
    assert(pic.subrange(a, b) =~= second);
    if let Some(win) = quota.primary {
        row_shows_its_window(win, 0, w);
    }
    if let Some(win) = quota.secondary {
        row_shows_its_window(win, if quota.primary is Some { 1 } else { 0 }, w);
    }
    lemma_reset_line(quota, now);
    assert(pic[b] == footer_strokes(quota, w, now)[0]);
    assert(pic[b + 1] == footer_strokes(quota, w, now)[1]);
    assert(pic[b + 2] == footer_strokes(quota, w, now)[2]);
    assert(shows_quota(pic, quota, w, h, now, a, b));
}

proof fn lemma_reset_line(quota: Quota, now: int)
    ensures
        is_reset_line(footer(quota, now), quota, now),
{
    next_reset_is_soonest(quota);
    let wins = quota.windows();
    if let Some(p) = quota.primary {
        assert(wins[0] == p);
        assert(wins.contains(p));
    }
    if let Some(s) = quota.secondary {
        assert(wins.last() == s);
        assert(wins.contains(s));
    }
    if let Some(win) = quota.soonest_reset() {
        assert(is_earliest_reset(win.resets_at as int, quota));
    }
}

/// Without data the overlay shows its icon, centered, and a line below it that
/// says so, whatever windows the quota has.
pub proof fn missing_quota_is_shown(quota: Quota, w: int, h: int, now: int)
    requires
        !quota.connected,
    ensures
        ({
            let pic = picture(quota, w, h, now);
            &&& pic.len() == 3
            &&& pic[0] == Stroke::Fill {
                color: (24 + 0x100 * 24 + 0x1_0000 * 30) as u32,
                left: 0,
                top: 0,
                right: w,
                bottom: h,
            }
            &&& pic[1] matches Stroke::Icon { x, y, size }
            &&& size == 32
            &&& y == 32
            &&& w >= 32 ==> 0 <= w - size - 2 * x <= 1
            &&& w < 32 ==> -1 <= w - size - 2 * x <= 0
            &&& pic[2] == Stroke::Text {
                color: (170 + 0x100 * 172 + 0x1_0000 * 182) as u32,
                font: Font::Offline,
                anchor: Anchor::Center(w as i32),
                y: 68,
                text: "Connecting..."@,
            }
        }),
{
    halves_are_halves(w - 32);
}

/// Each answer of the overlay is given to the messages that it is for, and to no
/// others: it can be dragged by any place on it, paints itself when asked to,
/// hands the two items of the menu on, and ends the program with itself.
pub proof fn answers_fit_their_messages(msg: u32, wparam: usize)
    ensures
        answer(msg, wparam) == Answer::TitleBar <==> msg == WM_NCHITTEST,
        answer(msg, wparam) == Answer::Paint <==> msg == WM_PAINT,
        answer(msg, wparam) == Answer::Erased <==> msg == WM_ERASEBKGND,
        answer(msg, wparam) == Answer::Quit <==> msg == WM_DESTROY,
        answer(msg, wparam) == Answer::Post(WM_APP_REFRESH) <==> msg == WM_COMMAND && wparam % 0x1_0000
            == CMD_REFRESH,
        answer(msg, wparam) == Answer::Post(WM_APP_QUIT) <==> msg == WM_COMMAND && wparam % 0x1_0000 == CMD_EXIT,
        answer(msg, wparam) matches Answer::Post(m) ==> m == WM_APP_REFRESH || m == WM_APP_QUIT,
        answer(msg, wparam) == Answer::Done ==> msg == WM_COMMAND,
        answer(msg, wparam) == Answer::Default <==> !seq![
            WM_NCHITTEST,
            WM_PAINT,
            WM_ERASEBKGND,
            WM_COMMAND,
            WM_DESTROY,
        ].contains(msg),
{
    let known = seq![WM_NCHITTEST, WM_PAINT, WM_ERASEBKGND, WM_COMMAND, WM_DESTROY];
    assert(known[0] == WM_NCHITTEST && known[1] == WM_PAINT && known[2] == WM_ERASEBKGND && known[3] == WM_COMMAND
        && known[4] == WM_DESTROY);
}

} // verus!

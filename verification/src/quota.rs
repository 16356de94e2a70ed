//! Quota data model shared between the app-server reader and the UI.
use crate::percent::Percent;
use crate::text::{decimal, decimal_text, join};
use vstd::prelude::*;

verus! {

/// One rate-limit window (e.g. the 5-hour window or the weekly window).
#[derive(Clone, Copy, Debug, PartialEq, Eq, Structural)]
pub struct Window {
    /// Percentage of quota already used (0 ..= 100).
    pub used_percent: Percent,
    /// Unix epoch seconds when the window resets; 0 if unknown.
    pub resets_at: i64,
    /// Length of the window in minutes; 0 if unknown.
    pub window_mins: i64,
}

/// The short label of a window of `mins` minutes.
pub open spec fn window_label(mins: int) -> Seq<char> {
    if mins == 0 {
        "quota"@
    } else if mins >= 10_000 {
        "1w"@
    } else if mins > 0 && mins % 60 == 0 {
        decimal(mins / 60) + "h"@
    } else {
        decimal(mins) + "m"@
    }
}

impl Default for Window {
    fn default() -> (r: Self)
        ensures
            r == (Window { used_percent: Percent { bits: 0 }, resets_at: 0, window_mins: 0 }),
    {
        Window { used_percent: Percent { bits: 0 }, resets_at: 0, window_mins: 0 }
    }
}

impl Window {
    /// Short label for the UI. 300 mins -> "5h", 10080 (7 days) -> "1w".
    pub fn label(&self) -> (r: String)
        ensures
            r@ == window_label(self.window_mins as int),
    {
        let m: i64 = self.window_mins;
        proof {
            reveal_strlit("");
        }
        if m == 0 {
            "quota".to_string()
        } else if m >= 10_000 {
            "1w".to_string()
        } else if m > 0 && m % 60 == 0 {
            join(decimal_text(m / 60).as_str(), "h", "")
        } else {
            join(decimal_text(m).as_str(), "m", "")
        }
    }
}

/// Normalized quota snapshot used by the overlay.
#[derive(Clone, Copy, Debug, PartialEq, Eq, Structural)]
pub struct Quota {
    /// Short window (usually 5 hours).
    pub primary: Option<Window>,
    /// Long window (usually weekly).
    pub secondary: Option<Window>,
    /// Whether we got real data (false = not yet connected).
    pub connected: bool,
}

impl Default for Quota {
    fn default() -> (r: Self)
        ensures
            r == (Quota { primary: None, secondary: None, connected: false }),
    {
        Quota { primary: None, secondary: None, connected: false }
    }
}

/// Whether it is known when the window resets.
pub open spec fn reset_known(w: Option<Window>) -> bool {
    w matches Some(win) && win.resets_at > 0
}

impl Quota {
    /// The windows that there are, the short one first.
    pub open spec fn windows(self) -> Seq<Window> {
        (match self.primary {
            Some(w) => seq![w],
            None => Seq::empty(),
        }) + (match self.secondary {
            Some(w) => seq![w],
            None => Seq::empty(),
        })
    }

    /// Whether every percentage lies between 0 and 100.
    pub open spec fn in_range(self) -> bool {
        &&& self.primary matches Some(w) ==> w.used_percent.in_range()
        &&& self.secondary matches Some(w) ==> w.used_percent.in_range()
    }

    /// The window that resets soonest; of two that reset together, the short one.
    pub open spec fn soonest_reset(self) -> Option<Window> {
        if reset_known(self.primary) && (reset_known(self.secondary) ==> self.primary->Some_0.resets_at
            <= self.secondary->Some_0.resets_at) {
            self.primary
        } else if reset_known(self.secondary) {
            self.secondary
        } else {
            None
        }
    }

    /// The snapshot of a source that has not answered.
    pub fn disconnected() -> (r: Self)
        ensures
            r == (Quota { primary: None, secondary: None, connected: false }),
    {
        Quota::default()
    }

    /// The window that resets soonest — used for the single reset-time line.
    pub fn next_reset(&self) -> (r: Option<&Window>)
        ensures
            match r {
                Some(w) => self.soonest_reset() == Some(*w),
                None => self.soonest_reset() is None,
            },
    {
        let mut best: Option<&Window> = None;
        if let Some(w) = &self.primary {
            if w.resets_at > 0 {
                best = Some(w);
            }
        }
        if let Some(w) = &self.secondary {
            if w.resets_at > 0 {
                match best {
                    Some(b) => {
                        if w.resets_at < b.resets_at {
                            best = Some(w);
                        }
                    },
                    None => {
                        best = Some(w);
                    },
                }
            }
        }
        best
    }
}

/// The window of the reset line is one of the quota's windows, its reset time
/// is known, and no window with a known reset time resets before it; there is
/// such a window unless no reset time is known.
pub proof fn next_reset_is_soonest(q: Quota)
    ensures
        match q.soonest_reset() {
            Some(w) => {
                &&& q.windows().contains(w)
                &&& w.resets_at > 0
                &&& forall|v: Window| #[trigger] q.windows().contains(v) && v.resets_at > 0 ==> w.resets_at <= v.resets_at
            },
            None => forall|v: Window| #[trigger] q.windows().contains(v) ==> v.resets_at <= 0,
        },
{
    let all = q.windows();
    if let Some(w) = q.primary {
        assert(all[0] == w);
    }
    if let Some(w) = q.secondary {
        assert(all.last() == w);
        assert(all.contains(all.last()));
    }
    if let Some(w) = q.soonest_reset() {
        assert(all[0] == w || all.last() == w);
    }
}

} // verus!

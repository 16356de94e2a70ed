//! What `codex app-server --stdio` says, and how it can fail.
use crate::json::{double, integer, member, member_of, well_formed, Json, Tree};
use crate::percent::Percent;
use crate::quota::{Quota, Window};
use crate::text::join;
use vstd::prelude::*;

verus! {

/// Error type for quota fetch failures.
#[derive(Debug)]
pub enum FetchError {
    Spawn(String),
    Io(String),
    Rpc(String),
}

/// A fetch failure with its text spelled out.
pub enum Failure {
    Spawn(Seq<char>),
    Io(Seq<char>),
    Rpc(Seq<char>),
}

impl View for FetchError {
    type V = Failure;

    open spec fn view(&self) -> Failure {
        match self {
            FetchError::Spawn(e) => Failure::Spawn(e@),
            FetchError::Io(e) => Failure::Io(e@),
            FetchError::Rpc(e) => Failure::Rpc(e@),
        }
    }
}

/// The message that describes a failure.
pub open spec fn failure_message(f: Failure) -> Seq<char> {
    match f {
        Failure::Spawn(e) => "failed to start codex: "@ + e,
        Failure::Io(e) => "codex I/O error: "@ + e,
        Failure::Rpc(e) => "codex RPC error: "@ + e,
    }
}

impl FetchError {
    /// The message that describes this failure.
    pub fn to_string(&self) -> (r: String)
        ensures
            r@ == failure_message(self@),
    {
        proof {
            reveal_strlit("");
        }
        match self {
            FetchError::Spawn(e) => join("failed to start codex: ", e.as_str(), ""),
            FetchError::Io(e) => join("codex I/O error: ", e.as_str(), ""),
            FetchError::Rpc(e) => join("codex RPC error: ", e.as_str(), ""),
        }
    }
}

/// The integer of a member that may be missing or no integer; 0 then.
pub open spec fn integer_or_zero(tree: Option<Tree>) -> i64 {
    match tree {
        Some(t) => match integer(t) {
            Some(n) => n,
            None => 0,
        },
        None => 0,
    }
}

/// The window that a bucket describes: none without a numeric `usedPercent`.
pub open spec fn window_of(node: Tree) -> Option<Window> {
    match member(node, "usedPercent"@) {
        Some(used) => match double(used) {
            Some(bits) => Some(
                Window {
                    used_percent: (Percent { bits }).clamp_spec(),
                    resets_at: integer_or_zero(member(node, "resetsAt"@)),
                    window_mins: integer_or_zero(member(node, "windowDurationMins"@)),
                },
            ),
            None => None,
        },
        None => None,
    }
}

/// The window of a bucket that may be missing.
pub open spec fn window_at(node: Option<Tree>) -> Option<Window> {
    match node {
        Some(n) => window_of(n),
        None => None,
    }
}

/// Where the windows stand in a result: in the bucket metered as `codex`, or,
/// where there is no such bucket, under `rateLimits`.
pub open spec fn limits_of(result: Tree) -> Option<Tree> {
    match member_of(member(result, "rateLimitsByLimitId"@), "codex"@) {
        Some(bucket) => Some(bucket),
        None => member(result, "rateLimits"@),
    }
}

/// The snapshot that an `account/rateLimits/read` result describes.
pub open spec fn quota_of(result: Tree) -> Quota {
    let root = limits_of(result);
    let primary = window_at(member_of(root, "primary"@));
    let secondary = window_at(member_of(root, "secondary"@));
    Quota { primary, secondary, connected: primary is Some || secondary is Some }
}

fn integer_member(node: &Json, key: &str) -> (r: i64)
    ensures
        r == integer_or_zero(member(node@, key@)),
{
    match node.get(key) {
        Some(v) => match v.as_i64() {
            Some(n) => n,
            None => 0,
        },
        None => 0,
    }
}

/// Map one bucket JSON object into a `Window`.
pub fn map_window(node: &Json) -> (r: Option<Window>)
    ensures
        r == window_of(node@),
        well_formed(*node) ==> (r matches Some(w) ==> w.used_percent.in_range()),
{
    match node.get("usedPercent") {
        Some(v) => match v.as_double() {
            Some(bits) => {
                let used = Percent { bits };
                Some(
                    Window {
                        used_percent: used.clamp(),
                        resets_at: integer_member(node, "resetsAt"),
                        window_mins: integer_member(node, "windowDurationMins"),
                    },
                )
            },
            None => None,
        },
        None => None,
    }
}

fn window_member(root: &Json, key: &str) -> (r: Option<Window>)
    ensures
        r == window_at(member(root@, key@)),
        well_formed(*root) ==> (r matches Some(w) ==> w.used_percent.in_range()),
{
    match root.get(key) {
        Some(node) => map_window(node),
        None => None,
    }
}

fn limits_root(result: &Json) -> (r: Option<&Json>)
    ensures
        match r {
            Some(j) => limits_of(result@) == Some(j@) && (well_formed(*result) ==> well_formed(*j)),
            None => limits_of(result@) is None,
        },
{
    if let Some(by_id) = result.get("rateLimitsByLimitId") {
        if let Some(bucket) = by_id.get("codex") {
            return Some(bucket);
        }
    }
    result.get("rateLimits")
}

/// Map the `account/rateLimits/read` result into a normalized `Quota`.
/// Reads both windows: `primary` (5h) and `secondary` (weekly).
pub fn map_result(result: &Json) -> (r: Quota)
    ensures
        r == quota_of(result@),
        well_formed(*result) ==> r.in_range(),
{
    let mut q = Quota::disconnected();
    if let Some(root) = limits_root(result) {
        q.primary = window_member(root, "primary");
        q.secondary = window_member(root, "secondary");
        q.connected = q.primary.is_some() || q.secondary.is_some();
    }
    q
}

} // verus!

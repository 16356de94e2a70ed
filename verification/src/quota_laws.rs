//! What is read from an answer, said of the members that the answer has, and
//! what a quota tells of its windows.
use crate::appserver::{failure_message, quota_of, window_of, Failure};
use crate::double::{
    grid, grid_is_increasing, integers_are_doubles, nearest, nearest_exists, one, rounding_is_monotone, rounds_to,
    small_multiples_are_doubles, LEADING, SIGN,
};
use crate::json::{double, integer, members, Json, Number, Tree};
use crate::percent::Percent;
use crate::percent_laws::clamping_moves_only_what_lies_outside;
use crate::quota::{window_label, Quota};
use crate::text::decimal;
use crate::text_laws::{integer_text_is_unique, integers_are_spelled, is_integer_text};
use vstd::arithmetic::mul::lemma_mul_inequality;
use vstd::arithmetic::power2::{lemma2_to64, lemma2_to64_rest, lemma_pow2_adds, lemma_pow2_pos, pow2};
use vstd::prelude::*;

verus! {

/// Of several members with one key the last one counts, and the members under
/// other keys are left alone.
pub proof fn later_members_win(entries: Seq<(String, Json)>, entry: (String, Json), key: Seq<char>)
    ensures
        members(entries.push(entry)).dom().contains(entry.0@),
        members(entries.push(entry))[entry.0@] == entry.1@,
        key != entry.0@ ==> members(entries.push(entry)).dom().contains(key) == members(entries).dom().contains(key),
        key != entry.0@ ==> members(entries.push(entry))[key] == members(entries)[key],
        !members(Seq::empty()).dom().contains(key),
{
    assert(entries.push(entry).drop_last() =~= entries);
}

/// The items of an array keep their order and number.
pub proof fn items_keep_their_order(items: Vec<Json>, i: int)
    requires
        0 <= i < items@.len(),
    ensures
        ({
            &&& Json::Array(items)@ matches Tree::Array(trees)
            &&& trees.len() == items@.len()
            &&& trees[i] == items@[i]@
        }),
{
}

/// A document holds an integer where it is a number that was written as one and
/// fits in an `i64`; nothing else counts as an integer.
pub proof fn integers_are_read_as_written(tree: Tree, n: i64)
    ensures
        integer(tree) == Some(n) <==> (tree matches Tree::Number(Number::Unsigned(m)) && m == n) || tree
            == Tree::Number(Number::Negative(n)),
{
}

proof fn lemma_integers_have_doubles(n: nat)
    requires
        n <= u64::MAX,
    ensures
        rounds_to(nearest(n * one(), 1), n * one(), 1),
{
    lemma2_to64();
    lemma2_to64_rest();
    lemma_pow2_pos(1074);
    lemma_pow2_adds(64, 1074);
    let top = small_multiples_are_doubles(1, 1138);
    assert(n * one() < pow2(64) * one()) by (nonlinear_arith)
        requires
            n < pow2(64),
            one() > 0,
    ;
    nearest_exists(top, n * one(), 1);
}

/// A number is taken as the double nearest to it: the sign is kept, and so is
/// the value of every integer below 2^53.
pub proof fn numbers_keep_their_value(n: int)
    requires
        i64::MIN <= n <= u64::MAX,
    ensures
        n >= 0 ==> {
            &&& double(Tree::Number(Number::Unsigned(n as u64))) matches Some(bits)
            &&& bits < SIGN
            &&& rounds_to(bits as nat, n as nat * one(), 1)
            &&& n < 2 * LEADING ==> (Percent { bits }).value() == n * one()
        },
        n < 0 ==> {
            &&& double(Tree::Number(Number::Negative(n as i64))) matches Some(bits)
            &&& bits >= SIGN
            &&& rounds_to((bits - SIGN) as nat, (-n) as nat * one(), 1)
            &&& -n < 2 * LEADING ==> (Percent { bits }).value() == n * one()
        },
{
    let m: nat = if n < 0 {
        (-n) as nat
    } else {
        n as nat
    };
    lemma_integers_have_doubles(m);
    if m < 2 * LEADING {
        integers_are_doubles(m);
    }
    assert(n < 0 ==> n * one() == -(m * one())) by (nonlinear_arith)
        requires
            n < 0 ==> m == -n,
    ;
}

/// A double is taken as it is, and what is no number has none.
pub proof fn doubles_are_taken_as_they_are(tree: Tree, bits: u64)
    ensures
        double(Tree::Number(Number::Double(bits))) == Some(bits),
        double(tree) is Some <==> tree is Number,
{
}

/// A window comes of a bucket with a number under `usedPercent`, and of nothing
/// else.
pub proof fn window_needs_a_percentage(bucket: Tree)
    ensures
        window_of(bucket) is Some <==> {
            &&& bucket matches Tree::Object(m)
            &&& m.dom().contains("usedPercent"@)
            &&& m["usedPercent"@] is Number
        },
{
}

/// A whole percentage is taken exactly: `n` up to 100 stays `n`, and what lies
/// beyond 0 or 100 becomes that.
pub proof fn whole_percentages_are_taken_exactly(m: Map<Seq<char>, Tree>, n: int)
    requires
        m.dom().contains("usedPercent"@),
        i64::MIN <= n <= u64::MAX,
        n >= 0 ==> m["usedPercent"@] == Tree::Number(Number::Unsigned(n as u64)),
        n < 0 ==> m["usedPercent"@] == Tree::Number(Number::Negative(n as i64)),
    ensures
        ({
            &&& window_of(Tree::Object(m)) matches Some(w)
            &&& w.used_percent.is_number()
            &&& w.used_percent.value() == if n < 0 {
                0
            } else if n > 100 {
                100 * one() as int
            } else {
                n * one()
            }
        }),
{
    numbers_keep_their_value(n);
    lemma_pow2_pos(1074);
    let bits = double(m["usedPercent"@])->Some_0;
    let p = Percent { bits };
    clamping_moves_only_what_lies_outside(p);
    if 0 <= n <= 100 {
        lemma_mul_inequality(n, 100, one() as int);
        assert(n * one() >= 0) by (nonlinear_arith)
            requires
                n >= 0,
        ;
    } else if n > 100 {
        integers_are_doubles(100);
        lemma_mul_inequality(100, n, one() as int);
        rounding_is_monotone(nearest(100 * one(), 1), bits as nat, 100 * one(), n as nat * one(), 1);
        lemma_ordered(nearest(100 * one(), 1), bits as nat);
    }
}

proof fn lemma_ordered(p: nat, q: nat)
    requires
        p <= q,
    ensures
        grid(p) <= grid(q),
{
    if p < q {
        grid_is_increasing(p, q);
    }
}

/// A percentage with a fraction is taken as it is where it lies between 0 and
/// 100; a lower or a higher one becomes 0 or 100.
pub proof fn fractional_percentages_are_clamped(m: Map<Seq<char>, Tree>, bits: u64)
    requires
        m.dom().contains("usedPercent"@),
        m["usedPercent"@] == Tree::Number(Number::Double(bits)),
    ensures
        ({
            let p = Percent { bits };
            &&& window_of(Tree::Object(m)) matches Some(w)
            &&& p.is_number() && 0 <= p.value() <= 100 * one() ==> w.used_percent == p
            &&& p.is_number() && p.value() < 0 ==> w.used_percent.is_number() && w.used_percent.value() == 0
            &&& p.is_number() && p.value() > 100 * one() ==> w.used_percent.is_number() && w.used_percent.value()
                == 100 * one()
        }),
{
    clamping_moves_only_what_lies_outside(Percent { bits });
}

/// `n` is what a member that should be an integer gives: the integer, or 0 where
/// the member is missing or is no integer.
pub open spec fn is_integer_member(m: Map<Seq<char>, Tree>, key: Seq<char>, n: int) -> bool {
    if m.dom().contains(key) && (m[key] matches Tree::Number(Number::Unsigned(k)) && k <= i64::MAX) {
        m[key] == Tree::Number(Number::Unsigned(n as u64)) && 0 <= n <= i64::MAX
    } else if m.dom().contains(key) && (m[key] matches Tree::Number(Number::Negative(_))) {
        m[key] == Tree::Number(Number::Negative(n as i64)) && i64::MIN <= n <= i64::MAX
    } else {
        n == 0
    }
}

/// A window has the reset time and the length that its bucket gives, whatever
/// its percentage is.
pub proof fn window_has_its_times(m: Map<Seq<char>, Tree>)
    ensures
        window_of(Tree::Object(m)) matches Some(w) ==> {
            &&& is_integer_member(m, "resetsAt"@, w.resets_at as int)
            &&& is_integer_member(m, "windowDurationMins"@, w.window_mins as int)
        },
{
}

/// The tree that stands in `result` under these keys, one inside the other.
pub open spec fn found(result: Tree, keys: Seq<Seq<char>>) -> Option<Tree>
    decreases keys.len(),
{
    if keys.len() == 0 {
        Some(result)
    } else {
        match found(result, keys.drop_last()) {
            Some(Tree::Object(m)) => if m.dom().contains(keys.last()) {
                Some(m[keys.last()])
            } else {
                None
            },
            _ => None,
        }
    }
}

/// A quota has the short window from `primary` and the long one from
/// `secondary`, both from the bucket metered as `codex` where there is one, and
/// else from `rateLimits`; it is connected where it has any of them.
pub proof fn quota_has_both_windows(result: Tree)
    ensures
        ({
            let q = quota_of(result);
            let metered = seq!["rateLimitsByLimitId"@, "codex"@];
            let root = if found(result, metered) is Some {
                metered
            } else {
                seq!["rateLimits"@]
            };
            &&& match found(result, root.push("primary"@)) {
                Some(bucket) => q.primary == window_of(bucket),
                None => q.primary is None,
            }
            &&& match found(result, root.push("secondary"@)) {
                Some(bucket) => q.secondary == window_of(bucket),
                None => q.secondary is None,
            }
            &&& q.connected <==> q.primary is Some || q.secondary is Some
        }),
{
    reveal_with_fuel(found, 4);
    let by = "rateLimitsByLimitId"@;
    let codex = "codex"@;
    let plain = "rateLimits"@;
    assert(seq![by, codex].drop_last() =~= seq![by]);
    assert(seq![by].drop_last() =~= Seq::<Seq<char>>::empty());
    assert(seq![plain].drop_last() =~= Seq::<Seq<char>>::empty());
    assert(seq![by, codex].push("primary"@).drop_last() =~= seq![by, codex]);
    assert(seq![by, codex].push("secondary"@).drop_last() =~= seq![by, codex]);
    assert(seq![plain].push("primary"@).drop_last() =~= seq![plain]);
    assert(seq![plain].push("secondary"@).drop_last() =~= seq![plain]);
}

/// A quota shows its windows in order, the short one first, and leaves none out.
pub proof fn windows_are_all_there(q: Quota)
    ensures
        q.primary matches Some(p) ==> q.windows().len() > 0 && q.windows()[0] == p,
        q.secondary matches Some(s) ==> q.windows().len() > 0 && q.windows().last() == s,
        q.windows().len() == (if q.primary is Some { 1int } else { 0 }) + (if q.secondary is Some { 1int } else { 0 }),
{
}

/// Of two windows that reset together the short one is taken.
pub proof fn ties_go_to_the_short_window(q: Quota)
    requires
        q.primary is Some,
        q.primary->Some_0.resets_at > 0,
        q.secondary matches Some(s) ==> s.resets_at <= 0 || q.primary->Some_0.resets_at <= s.resets_at,
    ensures
        q.soonest_reset() == q.primary,
{
}

/// A window is labelled by its length: in hours where it is a number of whole
/// hours, else in minutes; as a week from 10000 minutes on; and without a length
/// as a quota.
pub proof fn label_tells_the_length(mins: int, n: int, numeral: Seq<char>)
    requires
        is_integer_text(numeral, n),
    ensures
        0 < mins < 10_000 && mins == 60 * n ==> window_label(mins) == numeral + seq!['h'],
        mins < 10_000 && mins != 0 && mins == n && !(mins > 0 && mins % 60 == 0) ==> window_label(mins) == numeral
            + seq!['m'],
        mins >= 10_000 ==> window_label(mins) == seq!['1', 'w'],
        mins == 0 ==> window_label(mins) == seq!['q', 'u', 'o', 't', 'a'],
{
    reveal_strlit("h");
    reveal_strlit("m");
    reveal_strlit("1w");
    reveal_strlit("quota");
    assert("h"@ =~= seq!['h']);
    assert("m"@ =~= seq!['m']);
    assert("1w"@ =~= seq!['1', 'w']);
    assert("quota"@ =~= seq!['q', 'u', 'o', 't', 'a']);
    integers_are_spelled(n);
    integer_text_is_unique(numeral, decimal(n), n);
}

/// Windows of different lengths below a week have different labels.
pub proof fn labels_tell_windows_apart(a: int, b: int)
    requires
        0 < a < 10_000,
        0 < b < 10_000,
        window_label(a) == window_label(b),
    ensures
        a == b,
{
    let x: int = if a % 60 == 0 { a / 60 } else { a };
    let y: int = if b % 60 == 0 { b / 60 } else { b };
    lemma_label(a, x);
    lemma_label(b, y);
    let s = window_label(a);
    assert(decimal(x) =~= s.drop_last());
    assert(decimal(y) =~= window_label(b).drop_last());
    integers_are_spelled(x);
    integers_are_spelled(y);
    assert(s.last() == if a % 60 == 0 { 'h' } else { 'm' });
    assert(window_label(b).last() == if b % 60 == 0 { 'h' } else { 'm' });
}

proof fn lemma_label(mins: int, n: int)
    requires
        0 < mins < 10_000,
        mins == if mins % 60 == 0 { 60 * n } else { n },
    ensures
        window_label(mins) == decimal(n) + seq![if mins % 60 == 0 { 'h' } else { 'm' }],
{
    integers_are_spelled(n);
    label_tells_the_length(mins, n, decimal(n));
}

/// A failure is described by what failed, and then by its reason, in full.
pub proof fn failures_give_their_reason(reason: Seq<char>)
    ensures
        failure_message(Failure::Spawn(reason)) == "failed to start codex: "@ + reason,
        failure_message(Failure::Io(reason)) == "codex I/O error: "@ + reason,
        failure_message(Failure::Rpc(reason)) == "codex RPC error: "@ + reason,
{
}

} // verus!

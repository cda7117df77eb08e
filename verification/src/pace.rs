//! Pace: how often foreground events are handled and warnings are written, over many runs.

use vstd::prelude::*;

use crate::call::{Call, Channel, LastEvent, Warning, WarningKind};
use crate::clock;
use crate::clock::{EVENT_DEBOUNCE_MS, FAIL_LOG_THROTTLE_MS};
use crate::convert;
use crate::courses;
use crate::defime;
use crate::detect;
use crate::enforce;
use crate::enforce::Enforcement;
use crate::hotkey;
use crate::hotkey::{HotkeyAction, HotkeyIds};
use crate::laws;
use crate::layout;
use crate::mode;
use crate::mode::{ImeMode, LANG_CHINESE};
use crate::script;
use crate::script::{Exchange, Script};
use crate::shift;
use crate::watch;
use crate::watch::Outcome;

verus! {

/// The time in the slot of a kind of warnings after a log of exchanges, if it was `stamp` before.
pub open spec fn stamp_after(kind: WarningKind, stamp: u64, log: Seq<Exchange>) -> u64
    decreases log.len(),
{
    if log.len() == 0 {
        stamp
    } else {
        let before = stamp_after(kind, stamp, log.drop_last());
        match log.last().call {
            Call::ExchangeStamp { kind: slot, new, .. } => if slot == kind
                && log.last().reply->Flag_0 {
                new
            } else {
                before
            },
            _ => before,
        }
    }
}

/// Whether the exchange with index `i`, if it is with the slot of a kind, got the answer of an
/// atomic cell: a load gets the time that the slot holds, and an exchange succeeds exactly if the
/// slot still holds the time that it expects.
pub open spec fn stamp_answered(
    kind: WarningKind,
    stamp: u64,
    log: Seq<Exchange>,
    i: int,
) -> bool {
    let held = stamp_after(kind, stamp, log.take(i));
    match log[i].call {
        Call::LoadStamp(slot) => slot == kind ==> log[i].reply->Stamp_0 == held,
        Call::ExchangeStamp { kind: slot, old, .. } => slot == kind ==> log[i].reply->Flag_0 == (
        held == old),
        _ => true,
    }
}

/// Whether the slot of a kind, which holds `stamp` at first, answers as an atomic cell throughout
/// a log.
pub open spec fn stamp_answers(kind: WarningKind, stamp: u64, log: Seq<Exchange>) -> bool {
    forall|i: int| 0 <= i < log.len() ==> #[trigger] stamp_answered(kind, stamp, log, i)
}

/// The time in the slot of a kind before the run with index `k`, when each run finds what the one
/// before it left and the first one finds `stamp`.
pub open spec fn stamp_before(
    kind: WarningKind,
    stamp: u64,
    runs: Seq<Seq<Exchange>>,
    k: int,
) -> u64
    decreases k,
{
    if k <= 0 {
        stamp
    } else {
        stamp_after(kind, stamp_before(kind, stamp, runs, k - 1), runs[k - 1])
    }
}

/// What a throttled warning does to the slot of its kind.
proof fn lemma_warning_stamps(warning: Warning, stamp: u64, log: Seq<Exchange>, written: bool)
    requires
        clock::warn_script(warning).runs(log, written),
        stamp_answers(warning.kind(), stamp, log),
    ensures
        ({
            let now = clock::clock_ms(log[0].reply->Clock_0);
            &&& written == clock::warning_due(stamp, now)
            &&& stamp_after(warning.kind(), stamp, log) == if written {
                now
            } else {
                stamp
            }
        }),
{
    clock::law_warning_needs_its_slot(warning, log, written);
    reveal_with_fuel(stamp_after, 5);
    assert(stamp_answered(warning.kind(), stamp, log, 1));
    assert(log.take(1).drop_last() =~= Seq::empty());
    assert(log.take(2).drop_last() =~= log.take(1));
    if log.len() > 2 {
        assert(stamp_answered(warning.kind(), stamp, log, 2));
        assert(log.take(3).drop_last() =~= log.take(2));
    }
    if log.len() > 3 {
        assert(log.drop_last() =~= log.take(3));
    }
    assert(log.len() == 2 ==> log =~= log.take(2));
    assert(log.len() == 3 ==> log =~= log.take(3));
}

/// Throttled warnings of one kind, one after the other: each finds in the slot what the one before
/// it left.
pub open spec fn warned_in_turn(
    kind: WarningKind,
    stamp: u64,
    warnings: Seq<Warning>,
    runs: Seq<Seq<Exchange>>,
    written: Seq<bool>,
) -> bool {
    &&& runs.len() == warnings.len()
    &&& written.len() == warnings.len()
    &&& forall|k: int|
        #![trigger runs[k]]
        0 <= k < runs.len() ==> warnings[k].kind() == kind && clock::warn_script(warnings[k]).runs(
            runs[k],
            written[k],
        ) && stamp_answers(kind, stamp_before(kind, stamp, runs, k), runs[k])
}

/// The time that a throttled warning reads from the clock.
pub open spec fn warning_time(log: Seq<Exchange>) -> u64 {
    clock::clock_ms(log[0].reply->Clock_0)
}

/// The slot never goes back while warnings come one after the other.
proof fn lemma_stamp_grows(
    kind: WarningKind,
    stamp: u64,
    warnings: Seq<Warning>,
    runs: Seq<Seq<Exchange>>,
    written: Seq<bool>,
    j: int,
    k: int,
)
    requires
        warned_in_turn(kind, stamp, warnings, runs, written),
        0 <= j <= k <= runs.len(),
    ensures
        stamp_before(kind, stamp, runs, j) <= stamp_before(kind, stamp, runs, k),
    decreases k - j,
{
    if j < k {
        lemma_stamp_grows(kind, stamp, warnings, runs, written, j, k - 1);
        lemma_warning_stamps(
            warnings[k - 1],
            stamp_before(kind, stamp, runs, k - 1),
            runs[k - 1],
            written[k - 1],
        );
    }
}

/// Of warnings of one kind that come one after the other, each is written exactly if the throttle
/// time has passed since the time that the slot holds: that of the last one that was written, or
/// the one that the slot held at first.
pub proof fn law_warning_is_written_when_due(
    kind: WarningKind,
    stamp: u64,
    warnings: Seq<Warning>,
    runs: Seq<Seq<Exchange>>,
    written: Seq<bool>,
    k: int,
)
    requires
        warned_in_turn(kind, stamp, warnings, runs, written),
        0 <= k < runs.len(),
    ensures
        written[k] == clock::warning_due(
            stamp_before(kind, stamp, runs, k),
            warning_time(runs[k]),
        ),
        stamp_before(kind, stamp, runs, k + 1) == if written[k] {
            warning_time(runs[k])
        } else {
            stamp_before(kind, stamp, runs, k)
        },
{
    lemma_warning_stamps(
        warnings[k],
        stamp_before(kind, stamp, runs, k),
        runs[k],
        written[k],
    );
}

/// A warning that comes at least half a minute after the time that its slot holds, by the clock, is
/// written, and one that comes sooner is not.
pub proof fn law_late_warning_is_written(
    kind: WarningKind,
    stamp: u64,
    warnings: Seq<Warning>,
    runs: Seq<Seq<Exchange>>,
    written: Seq<bool>,
    k: int,
)
    requires
        warned_in_turn(kind, stamp, warnings, runs, written),
        0 <= k < runs.len(),
    ensures
        written[k] <==> courses::millis(runs[k][0].reply) >= stamp_before(kind, stamp, runs, k)
            + 30_000,
        written[k] ==> stamp_before(kind, stamp, runs, k + 1) == courses::millis(runs[k][0].reply),
        !written[k] ==> stamp_before(kind, stamp, runs, k + 1) == stamp_before(
            kind,
            stamp,
            runs,
            k,
        ),
{
    law_warning_is_written_when_due(kind, stamp, warnings, runs, written, k);
    clock::law_warning_needs_its_slot(warnings[k], runs[k], written[k]);
    courses::law_clock_reading(runs[k][0].reply->Clock_0);
    courses::law_due_goes_by_distance(
        stamp_before(kind, stamp, runs, k),
        warning_time(runs[k]),
    );
}

/// Of two warnings of one kind that are written, the later one reads the clock at least the
/// throttle time after the earlier one.
pub proof fn law_successive_warnings_are_spaced(
    kind: WarningKind,
    stamp: u64,
    warnings: Seq<Warning>,
    runs: Seq<Seq<Exchange>>,
    written: Seq<bool>,
    j: int,
    k: int,
)
    requires
        warned_in_turn(kind, stamp, warnings, runs, written),
        0 <= j < k < runs.len(),
        written[j],
        written[k],
    ensures
        warning_time(runs[k]) - warning_time(runs[j]) >= FAIL_LOG_THROTTLE_MS,
{
    law_warning_is_written_when_due(kind, stamp, warnings, runs, written, j);
    law_warning_is_written_when_due(kind, stamp, warnings, runs, written, k);
    lemma_stamp_grows(kind, stamp, warnings, runs, written, j + 1, k);
}

/// Whether `log` is what several runs do at the same time: `place(r, i)` is where the exchange with
/// index `i` of the run with index `r` stands in it. Each run goes through its exchanges in order,
/// no two exchanges share a place, and there is nothing else in the log.
pub open spec fn woven(
    runs: Seq<Seq<Exchange>>,
    log: Seq<Exchange>,
    place: spec_fn(int, int) -> int,
) -> bool {
    &&& forall|r: int, i: int|
        0 <= r < runs.len() && 0 <= i < runs[r].len() ==> 0 <= #[trigger] place(r, i) < log.len()
            && log[place(r, i)] == runs[r][i]
    &&& forall|r: int, i: int, j: int|
        0 <= r < runs.len() && 0 <= i < j < runs[r].len() ==> #[trigger] place(r, i)
            < #[trigger] place(r, j)
    &&& forall|r: int, i: int, s: int, j: int|
        0 <= r < runs.len() && 0 <= i < runs[r].len() && 0 <= s < runs.len() && 0 <= j
            < runs[s].len() && #[trigger] place(r, i) == #[trigger] place(s, j) ==> r == s && i == j
    &&& forall|p: int|
        #![trigger log[p]]
        0 <= p < log.len() ==> exists|r: int, i: int|
            0 <= r < runs.len() && 0 <= i < runs[r].len() && #[trigger] place(r, i) == p
}

/// Whether the exchange with index `i` keeps to the throttling of warnings: a slot is claimed only
/// right after the clock and the slot were read, with what was read, and only if a warning is due;
/// and a warning is written only right after the slot of its kind was claimed.
pub open spec fn throttled_at(log: Seq<Exchange>, i: int) -> bool {
    match log[i].call {
        Call::ExchangeStamp { kind, old, new } => {
            &&& i >= 2
            &&& log[i - 2].call == Call::ReadClock
            &&& new == clock::clock_ms(log[i - 2].reply->Clock_0)
            &&& log[i - 1].call == Call::LoadStamp(kind)
            &&& old == log[i - 1].reply->Stamp_0
            &&& clock::warning_due(old, new)
        },
        Call::WriteWarning(warning) => {
            &&& i >= 1
            &&& log[i - 1].call is ExchangeStamp
            &&& log[i - 1].call->kind == warning.kind()
            &&& log[i - 1].reply->Flag_0
        },
        _ => true,
    }
}

/// Whether a log keeps to the throttling of warnings.
pub open spec fn throttled(log: Seq<Exchange>) -> bool {
    forall|i: int| 0 <= i < log.len() ==> #[trigger] throttled_at(log, i)
}

/// Whether the exchange with index `i` writes a warning of a kind.
pub open spec fn warns(kind: WarningKind, log: Seq<Exchange>, i: int) -> bool {
    0 <= i < log.len() && log[i].call is WriteWarning && log[i].call->WriteWarning_0.kind() == kind
}

/// The time that was read from the clock for the warning that the exchange with index `i` writes.
pub open spec fn time_of_warning(log: Seq<Exchange>, i: int) -> u64 {
    clock::clock_ms(log[i - 3].reply->Clock_0)
}

/// Whether every claim of the slot of a kind comes when a warning is due.
spec fn claims_are_due(kind: WarningKind, log: Seq<Exchange>) -> bool {
    forall|p: int|
        0 <= p < log.len() && (#[trigger] log[p]).call is ExchangeStamp && log[p].call->kind == kind
            ==> clock::warning_due(log[p].call->old, log[p].call->new)
}

proof fn lemma_woven_claims_are_due(
    kind: WarningKind,
    runs: Seq<Seq<Exchange>>,
    log: Seq<Exchange>,
    place: spec_fn(int, int) -> int,
)
    requires
        woven(runs, log, place),
        forall|r: int| 0 <= r < runs.len() ==> throttled(#[trigger] runs[r]),
    ensures
        claims_are_due(kind, log),
{
    assert forall|p: int|
        0 <= p < log.len() && (#[trigger] log[p]).call is ExchangeStamp && log[p].call->kind
            == kind implies clock::warning_due(log[p].call->old, log[p].call->new) by {
        let (r, i) = choose|r: int, i: int|
            0 <= r < runs.len() && 0 <= i < runs[r].len() && #[trigger] place(r, i) == p;
        assert(log[place(r, i)] == runs[r][i]);
        assert(throttled_at(runs[r], i));
    }
}

/// The slot never goes back.
proof fn lemma_slot_grows(kind: WarningKind, stamp: u64, log: Seq<Exchange>, p: int, q: int)
    requires
        stamp_answers(kind, stamp, log),
        claims_are_due(kind, log),
        0 <= p <= q <= log.len(),
    ensures
        stamp_after(kind, stamp, log.take(p)) <= stamp_after(kind, stamp, log.take(q)),
    decreases q - p,
{
    if p < q {
        lemma_slot_grows(kind, stamp, log, p, q - 1);
        assert(log.take(q).drop_last() =~= log.take(q - 1));
        assert(log.take(q).last() == log[q - 1]);
        assert(stamp_answered(kind, stamp, log, q - 1));
    }
}

/// Two claims of a slot that succeed are spaced.
proof fn lemma_claims_are_spaced(kind: WarningKind, stamp: u64, log: Seq<Exchange>, p: int, q: int)
    requires
        stamp_answers(kind, stamp, log),
        claims_are_due(kind, log),
        0 <= p < q < log.len(),
        log[p].call is ExchangeStamp,
        log[p].call->kind == kind,
        log[p].reply->Flag_0,
        log[q].call is ExchangeStamp,
        log[q].call->kind == kind,
        log[q].reply->Flag_0,
    ensures
        log[q].call->new - log[p].call->new >= FAIL_LOG_THROTTLE_MS,
{
    assert(log.take(p + 1).drop_last() =~= log.take(p));
    assert(log.take(p + 1).last() == log[p]);
    lemma_slot_grows(kind, stamp, log, p + 1, q);
    assert(stamp_answered(kind, stamp, log, q));
}

/// At most one warning of a kind is written in the throttle time, however many runs go on at the
/// same time: any two read the clock at least that far apart, the one that claims its slot later
/// reads the later time.
pub proof fn law_warnings_are_spaced(
    kind: WarningKind,
    stamp: u64,
    runs: Seq<Seq<Exchange>>,
    log: Seq<Exchange>,
    place: spec_fn(int, int) -> int,
    r: int,
    i: int,
    s: int,
    j: int,
)
    requires
        woven(runs, log, place),
        stamp_answers(kind, stamp, log),
        forall|k: int| 0 <= k < runs.len() ==> throttled(#[trigger] runs[k]),
        0 <= r < runs.len(),
        0 <= s < runs.len(),
        warns(kind, runs[r], i),
        warns(kind, runs[s], j),
        r != s || i != j,
    ensures
        i >= 3,
        j >= 3,
        place(r, i - 1) < place(s, j - 1) ==> time_of_warning(runs[s], j) - time_of_warning(
            runs[r],
            i,
        ) >= FAIL_LOG_THROTTLE_MS,
        place(r, i - 1) > place(s, j - 1) ==> time_of_warning(runs[r], i) - time_of_warning(
            runs[s],
            j,
        ) >= FAIL_LOG_THROTTLE_MS,
        place(r, i - 1) != place(s, j - 1),
{
    assert(throttled_at(runs[r], i));
    assert(throttled_at(runs[r], i - 1));
    assert(throttled_at(runs[s], j));
    assert(throttled_at(runs[s], j - 1));
    lemma_woven_claims_are_due(kind, runs, log, place);
    let p = place(r, i - 1);
    let q = place(s, j - 1);
    assert(log[p] == runs[r][i - 1]);
    assert(log[q] == runs[s][j - 1]);
    if p < q {
        lemma_claims_are_spaced(kind, stamp, log, p, q);
    } else if q < p {
        lemma_claims_are_spaced(kind, stamp, log, q, p);
    }
}

/// A throttled warning keeps to the throttling.
pub proof fn law_warning_is_throttled(warning: Warning, log: Seq<Exchange>, written: bool)
    requires
        clock::warn_script(warning).runs(log, written),
    ensures
        throttled(log),
        written <==> warns(warning.kind(), log, 3),
{
    clock::law_warning_needs_its_slot(warning, log, written);
    assert forall|i: int| 0 <= i < log.len() implies #[trigger] throttled_at(log, i) by {
        assert(i == 0 || i == 1 || i == 2 || i == 3);
    }
}

/// Throttled warnings of one kind, at whatever time and in whatever order.
pub open spec fn warned(
    kind: WarningKind,
    warnings: Seq<Warning>,
    runs: Seq<Seq<Exchange>>,
    written: Seq<bool>,
) -> bool {
    &&& runs.len() == warnings.len()
    &&& runs.len() == written.len()
    &&& forall|r: int|
        #![trigger runs[r]]
        0 <= r < runs.len() ==> warnings[r].kind() == kind && clock::warn_script(
            warnings[r],
        ).runs(runs[r], written[r])
}

/// The slot stays as it is while no claim succeeds.
proof fn lemma_slot_stays(kind: WarningKind, stamp: u64, log: Seq<Exchange>, p: int, q: int)
    requires
        0 <= p <= q <= log.len(),
        forall|k: int|
            p <= k < q && (#[trigger] log[k]).call is ExchangeStamp && log[k].call->kind == kind
                ==> !log[k].reply->Flag_0,
    ensures
        stamp_after(kind, stamp, log.take(q)) == stamp_after(kind, stamp, log.take(p)),
    decreases q - p,
{
    if p < q {
        lemma_slot_stays(kind, stamp, log, p, q - 1);
        assert(log.take(q).drop_last() =~= log.take(q - 1));
        assert(log.take(q).last() == log[q - 1]);
    }
}

/// A claim that succeeds in a log of throttled warnings is that of a warning that is written.
/// Returns which one it is.
proof fn lemma_claim_is_of_a_run(
    kind: WarningKind,
    warnings: Seq<Warning>,
    runs: Seq<Seq<Exchange>>,
    written: Seq<bool>,
    log: Seq<Exchange>,
    place: spec_fn(int, int) -> int,
    p: int,
) -> (r: int)
    requires
        woven(runs, log, place),
        warned(kind, warnings, runs, written),
        0 <= p < log.len(),
        log[p].call is ExchangeStamp,
    ensures
        0 <= r < runs.len(),
        runs[r].len() > 2,
        place(r, 2) == p,
        log[p] == runs[r][2],
        written[r] == log[p].reply->Flag_0,
        log[p].call->new == warning_time(runs[r]),
{
    let (r, i) = choose|r: int, i: int|
        0 <= r < runs.len() && 0 <= i < runs[r].len() && #[trigger] place(r, i) == p;
    assert(log[place(r, i)] == runs[r][i]);
    clock::law_warning_needs_its_slot(warnings[r], runs[r], written[r]);
    assert(i == 0 || i == 1 || i == 2 || i == 3);
    r
}

/// If exactly one of several warnings of a kind is written, the slot holds its time afterwards.
proof fn lemma_slot_of_the_winner(
    kind: WarningKind,
    stamp: u64,
    warnings: Seq<Warning>,
    runs: Seq<Seq<Exchange>>,
    written: Seq<bool>,
    log: Seq<Exchange>,
    place: spec_fn(int, int) -> int,
    r: int,
)
    requires
        woven(runs, log, place),
        warned(kind, warnings, runs, written),
        0 <= r < runs.len(),
        written[r],
        forall|s: int| 0 <= s < runs.len() && #[trigger] written[s] ==> s == r,
    ensures
        stamp_after(kind, stamp, log) == warning_time(runs[r]),
{
    clock::law_warning_needs_its_slot(warnings[r], runs[r], written[r]);
    let p = place(r, 2);
    assert(log[p] == runs[r][2]);
    assert forall|k: int|
        p + 1 <= k < log.len() && (#[trigger] log[k]).call is ExchangeStamp && log[k].call->kind
            == kind implies !log[k].reply->Flag_0 by {
        let s = lemma_claim_is_of_a_run(kind, warnings, runs, written, log, place, k);
        assert(written[s] ==> s == r);
    }
    lemma_slot_stays(kind, stamp, log, p + 1, log.len() as int);
    assert(log.take(p + 1).last() == log[p]);
    assert(log.take(log.len() as int) =~= log);
}

/// A warning that is due by what it found in its slot, and yet is not written, lost its slot to one
/// of its kind that claimed it in between; that one is written.
pub proof fn law_lost_claim_has_a_winner(
    kind: WarningKind,
    stamp: u64,
    warnings: Seq<Warning>,
    runs: Seq<Seq<Exchange>>,
    written: Seq<bool>,
    log: Seq<Exchange>,
    place: spec_fn(int, int) -> int,
    r: int,
)
    requires
        woven(runs, log, place),
        stamp_answers(kind, stamp, log),
        warned(kind, warnings, runs, written),
        0 <= r < runs.len(),
        clock::warning_due(runs[r][1].reply->Stamp_0, warning_time(runs[r])),
        !written[r],
    ensures
        exists|s: int|
            0 <= s < runs.len() && #[trigger] written[s] && place(r, 1) < place(s, 2) < place(
                r,
                2,
            ),
{
    clock::law_warning_needs_its_slot(warnings[r], runs[r], written[r]);
    let p = place(r, 1);
    let q = place(r, 2);
    assert(log[p] == runs[r][1]);
    assert(log[q] == runs[r][2]);
    assert(stamp_answered(kind, stamp, log, p));
    assert(stamp_answered(kind, stamp, log, q));
    if forall|k: int|
        p <= k < q && (#[trigger] log[k]).call is ExchangeStamp && log[k].call->kind == kind
            ==> !log[k].reply->Flag_0 {
        lemma_slot_stays(kind, stamp, log, p, q);
    } else {
        let k = choose|k: int|
            p <= k < q && (#[trigger] log[k]).call is ExchangeStamp && log[k].call->kind == kind
                && log[k].reply->Flag_0;
        let s = lemma_claim_is_of_a_run(kind, warnings, runs, written, log, place, k);
        assert(written[s]);
    }
}

/// While all claims write the same time, the slot holds that time or the one that it held at first.
proof fn lemma_slot_of_rivals(
    kind: WarningKind,
    stamp: u64,
    now: u64,
    log: Seq<Exchange>,
    p: int,
)
    requires
        0 <= p <= log.len(),
        forall|q: int|
            0 <= q < log.len() && (#[trigger] log[q]).call is ExchangeStamp && log[q].call->kind
                == kind ==> log[q].call->new == now,
    ensures
        stamp_after(kind, stamp, log.take(p)) == stamp || stamp_after(kind, stamp, log.take(p))
            == now,
    decreases p,
{
    if p > 0 {
        lemma_slot_of_rivals(kind, stamp, now, log, p - 1);
        assert(log.take(p).drop_last() =~= log.take(p - 1));
        assert(log.take(p).last() == log[p - 1]);
    }
}

/// If no warning is written, no claim of the slot succeeded, and it holds what it held at first.
proof fn lemma_slot_without_winner(
    kind: WarningKind,
    stamp: u64,
    warnings: Seq<Warning>,
    runs: Seq<Seq<Exchange>>,
    written: Seq<bool>,
    log: Seq<Exchange>,
    place: spec_fn(int, int) -> int,
    p: int,
)
    requires
        woven(runs, log, place),
        warned(kind, warnings, runs, written),
        forall|k: int| 0 <= k < runs.len() ==> !#[trigger] written[k],
        0 <= p <= log.len(),
    ensures
        stamp_after(kind, stamp, log.take(p)) == stamp,
{
    assert forall|k: int|
        0 <= k < p && (#[trigger] log[k]).call is ExchangeStamp && log[k].call->kind
            == kind implies !log[k].reply->Flag_0 by {
        let r = lemma_claim_is_of_a_run(kind, warnings, runs, written, log, place, k);
        assert(!written[r]);
    }
    lemma_slot_stays(kind, stamp, log, 0, p);
}

/// Of several calls at the same time that find the same time in the slot of their kind, exactly one
/// writes its warning if any of them is due, whatever different times they read from the clock. The
/// slot then holds the time of the one that wrote. If none is due, none writes, and the slot stays
/// as it was.
pub proof fn law_one_claim_wins(
    kind: WarningKind,
    stamp: u64,
    last: u64,
    warnings: Seq<Warning>,
    runs: Seq<Seq<Exchange>>,
    written: Seq<bool>,
    log: Seq<Exchange>,
    place: spec_fn(int, int) -> int,
)
    requires
        woven(runs, log, place),
        stamp_answers(kind, stamp, log),
        warned(kind, warnings, runs, written),
        forall|r: int| 0 <= r < runs.len() ==> (#[trigger] runs[r])[1].reply->Stamp_0 == last,
    ensures
        (exists|r: int|
            0 <= r < runs.len() && clock::warning_due(last, warning_time(#[trigger] runs[r])))
            ==> exists|r: int|
            0 <= r < runs.len() && #[trigger] written[r] && (forall|s: int|
                0 <= s < runs.len() && #[trigger] written[s] ==> s == r) && stamp_after(
                kind,
                stamp,
                log,
            ) == warning_time(runs[r]),
        (forall|r: int|
            0 <= r < runs.len() ==> !clock::warning_due(last, warning_time(#[trigger] runs[r])))
            ==> (forall|r: int| 0 <= r < runs.len() ==> !#[trigger] written[r]) && stamp_after(
            kind,
            stamp,
            log,
        ) == stamp,
{
    assert forall|r: int| 0 <= r < runs.len() implies throttled(#[trigger] runs[r]) by {
        law_warning_is_throttled(warnings[r], runs[r], written[r]);
    }
    lemma_woven_claims_are_due(kind, runs, log, place);
    assert forall|r: int, s: int|
        0 <= r < runs.len() && 0 <= s < runs.len() && #[trigger] written[r]
            && #[trigger] written[s] implies r == s by {
        if r != s {
            clock::law_warning_needs_its_slot(warnings[r], runs[r], written[r]);
            clock::law_warning_needs_its_slot(warnings[s], runs[s], written[s]);
            let p = place(r, 2);
            let q = place(s, 2);
            assert(log[p] == runs[r][2]);
            assert(log[q] == runs[s][2]);
            if p < q {
                lemma_claim_outdates(kind, stamp, log, p, q);
            } else {
                lemma_claim_outdates(kind, stamp, log, q, p);
            }
        }
    }
    if exists|r: int| 0 <= r < runs.len() && #[trigger] written[r] {
        let r = choose|r: int| 0 <= r < runs.len() && #[trigger] written[r];
        clock::law_warning_needs_its_slot(warnings[r], runs[r], written[r]);
        assert(clock::warning_due(last, warning_time(runs[r])));
        lemma_slot_of_the_winner(kind, stamp, warnings, runs, written, log, place, r);
    } else {
        lemma_slot_without_winner(
            kind,
            stamp,
            warnings,
            runs,
            written,
            log,
            place,
            log.len() as int,
        );
        assert(log.take(log.len() as int) =~= log);
        assert forall|r: int| 0 <= r < runs.len() implies !clock::warning_due(
            last,
            warning_time(#[trigger] runs[r]),
        ) by {
            clock::law_warning_needs_its_slot(warnings[r], runs[r], written[r]);
            assert(!written[r]);
            if clock::warning_due(last, warning_time(runs[r])) {
                let p = place(r, 1);
                let q = place(r, 2);
                lemma_slot_without_winner(kind, stamp, warnings, runs, written, log, place, p);
                lemma_slot_without_winner(kind, stamp, warnings, runs, written, log, place, q);
                assert(log[p] == runs[r][1]);
                assert(stamp_answered(kind, stamp, log, p));
                assert(log[q] == runs[r][2]);
                assert(stamp_answered(kind, stamp, log, q));
            }
        }
    }
}

/// Once a claim succeeds, no later one does that expects a time before the claim's own.
proof fn lemma_claim_outdates(kind: WarningKind, stamp: u64, log: Seq<Exchange>, p: int, q: int)
    requires
        stamp_answers(kind, stamp, log),
        claims_are_due(kind, log),
        0 <= p < q < log.len(),
        log[p].call is ExchangeStamp,
        log[p].call->kind == kind,
        log[p].reply->Flag_0,
        log[q].call is ExchangeStamp,
        log[q].call->kind == kind,
        log[q].call->old < log[p].call->new,
    ensures
        !log[q].reply->Flag_0,
{
    assert(log.take(p + 1).drop_last() =~= log.take(p));
    assert(log.take(p + 1).last() == log[p]);
    lemma_slot_grows(kind, stamp, log, p + 1, q);
    assert(stamp_answered(kind, stamp, log, q));
}

/// Of several calls at the same time that read the same time from the clock, exactly one writes its
/// warning if one is due, and none if none is due. The slot then holds the time that they read, or
/// what it held before.
pub proof fn law_one_rival_writes(
    kind: WarningKind,
    stamp: u64,
    now: u64,
    warnings: Seq<Warning>,
    runs: Seq<Seq<Exchange>>,
    written: Seq<bool>,
    log: Seq<Exchange>,
    place: spec_fn(int, int) -> int,
)
    requires
        woven(runs, log, place),
        stamp_answers(kind, stamp, log),
        runs.len() > 0,
        warned(kind, warnings, runs, written),
        forall|r: int| 0 <= r < runs.len() ==> warning_time(#[trigger] runs[r]) == now,
    ensures
        clock::warning_due(stamp, now) ==> exists|r: int|
            0 <= r < runs.len() && #[trigger] written[r] && forall|s: int|
                0 <= s < runs.len() && #[trigger] written[s] ==> s == r,
        !clock::warning_due(stamp, now) ==> forall|r: int|
            0 <= r < runs.len() ==> !#[trigger] written[r],
        stamp_after(kind, stamp, log) == if clock::warning_due(stamp, now) {
            now
        } else {
            stamp
        },
{
    assert forall|r: int| 0 <= r < runs.len() implies throttled(#[trigger] runs[r]) by {
        law_warning_is_throttled(warnings[r], runs[r], written[r]);
    }
    assert forall|q: int|
        0 <= q < log.len() && (#[trigger] log[q]).call is ExchangeStamp && log[q].call->kind
            == kind implies log[q].call->new == now by {
        let (r, i) = choose|r: int, i: int|
            0 <= r < runs.len() && 0 <= i < runs[r].len() && #[trigger] place(r, i) == q;
        assert(log[place(r, i)] == runs[r][i]);
        clock::law_warning_needs_its_slot(warnings[r], runs[r], written[r]);
        assert(i == 0 || i == 1 || i == 2 || i == 3);
    }
    assert forall|r: int, s: int|
        0 <= r < runs.len() && 0 <= s < runs.len() && #[trigger] written[r]
            && #[trigger] written[s] implies r == s by {
        if r != s {
            law_warning_is_throttled(warnings[r], runs[r], written[r]);
            law_warning_is_throttled(warnings[s], runs[s], written[s]);
            law_warnings_are_spaced(kind, stamp, runs, log, place, r, 3, s, 3);
        }
    }
    assert forall|r: int| 0 <= r < runs.len() && #[trigger] written[r] implies clock::warning_due(
        stamp,
        now,
    ) by {
        clock::law_warning_needs_its_slot(warnings[r], runs[r], written[r]);
        let p = place(r, 1);
        assert(log[p] == runs[r][1]);
        assert(stamp_answered(kind, stamp, log, p));
        lemma_slot_of_rivals(kind, stamp, now, log, p);
    }
    if exists|r: int| 0 <= r < runs.len() && #[trigger] written[r] {
        let r = choose|r: int| 0 <= r < runs.len() && #[trigger] written[r];
        lemma_slot_of_the_winner(kind, stamp, warnings, runs, written, log, place, r);
    } else {
        lemma_slot_without_winner(
            kind,
            stamp,
            warnings,
            runs,
            written,
            log,
            place,
            log.len() as int,
        );
        assert(log.take(log.len() as int) =~= log);
        if clock::warning_due(stamp, now) {
            clock::law_warning_needs_its_slot(warnings[0], runs[0], written[0]);
            assert(!written[0]);
            let p = place(0, 1);
            let q = place(0, 2);
            lemma_slot_without_winner(kind, stamp, warnings, runs, written, log, place, p);
            assert(log[p] == runs[0][1]);
            assert(stamp_answered(kind, stamp, log, p));
            lemma_slot_without_winner(kind, stamp, warnings, runs, written, log, place, q);
            assert(log[q] == runs[0][2]);
            assert(stamp_answered(kind, stamp, log, q));
        }
    }
}

/// Whether a call has to do with the foreground event that was handled last.
pub open spec fn minds_events(call: Call) -> bool {
    call is LoadLastEvent || call is StoreLastEvent
}

/// Whether a log keeps to the throttling of warnings and has nothing to do with the foreground
/// event that was handled last.
spec fn steady(log: Seq<Exchange>) -> bool {
    throttled(log) && forall|i: int| 0 <= i < log.len() ==> !minds_events((#[trigger] log[i]).call)
}

/// Whether a call has to do with neither warnings nor events.
spec fn plain(call: Call) -> bool {
    !(call is ExchangeStamp) && !(call is WriteWarning) && !minds_events(call)
}

/// Two logs in a row keep to the throttling if each does.
proof fn lemma_throttled_join(log: Seq<Exchange>, n: int)
    requires
        0 <= n <= log.len(),
        throttled(log.take(n)),
        throttled(log.skip(n)),
    ensures
        throttled(log),
{
    let a = log.take(n);
    let b = log.skip(n);
    assert forall|i: int| 0 <= i < log.len() implies #[trigger] throttled_at(log, i) by {
        if i < n {
            assert(throttled_at(a, i));
        } else {
            assert(throttled_at(b, i - n));
            assert(log[i] == b[i - n]);
        }
    }
}

proof fn lemma_steady_join(log: Seq<Exchange>, n: int)
    requires
        0 <= n <= log.len(),
        steady(log.take(n)),
        steady(log.skip(n)),
    ensures
        steady(log),
{
    lemma_throttled_join(log, n);
    assert forall|i: int| 0 <= i < log.len() implies !minds_events((#[trigger] log[i]).call) by {
        if i < n {
            assert(log[i] == log.take(n)[i]);
        } else {
            assert(log[i] == log.skip(n)[i - n]);
        }
    }
}

/// A log keeps to the throttling if it starts with something else and goes on so.
proof fn lemma_throttled_push(log: Seq<Exchange>)
    requires
        log.len() > 0,
        !(log[0].call is ExchangeStamp),
        !(log[0].call is WriteWarning),
        throttled(log.drop_first()),
    ensures
        throttled(log),
{
    assert(log.skip(1) =~= log.drop_first());
    assert forall|i: int| 0 <= i < log.take(1).len() implies #[trigger] throttled_at(
        log.take(1),
        i,
    ) by {
        assert(log.take(1)[i] == log[0]);
    }
    lemma_throttled_join(log, 1);
}

proof fn lemma_steady_push(log: Seq<Exchange>)
    requires
        log.len() > 0,
        plain(log[0].call),
        steady(log.drop_first()),
    ensures
        steady(log),
{
    lemma_throttled_push(log);
    assert forall|i: int| 0 <= i < log.len() implies !minds_events((#[trigger] log[i]).call) by {
        if i > 0 {
            assert(log[i] == log.drop_first()[i - 1]);
        }
    }
}

proof fn lemma_warn_is_steady(warning: Warning, log: Seq<Exchange>, written: bool)
    requires
        clock::warn_script(warning).runs(log, written),
    ensures
        steady(log),
{
    law_warning_is_throttled(warning, log, written);
    clock::law_warning_needs_its_slot(warning, log, written);
    assert forall|i: int| 0 <= i < log.len() implies !minds_events((#[trigger] log[i]).call) by {
        assert(i == 0 || i == 1 || i == 2 || i == 3);
    }
}

proof fn lemma_get_mode_is_steady(hwnd: usize, log: Seq<Exchange>, found: Option<u32>)
    requires
        defime::get_mode_script(hwnd).runs(log, found),
    ensures
        steady(log),
{
    reveal_with_fuel(Script::runs, 4);
    let rest = log.drop_first();
    if rest.len() > 0 {
        lemma_steady_push(rest);
    }
    lemma_steady_push(log);
}

proof fn lemma_set_mode_is_steady(hwnd: usize, cmode: u32, log: Seq<Exchange>, accepted: bool)
    requires
        defime::set_mode_script(hwnd, cmode).runs(log, accepted),
    ensures
        steady(log),
{
    reveal_with_fuel(Script::runs, 5);
    let l1 = log.drop_first();
    if l1.len() > 0 {
        lemma_steady_push(l1.drop_first());
        lemma_steady_push(l1);
    }
    lemma_steady_push(log);
}

proof fn lemma_query_default_is_steady(
    hwnd: usize,
    log: Seq<Exchange>,
    found: Option<(u32, Channel)>,
)
    requires
        detect::query_default(hwnd).runs(log, found),
    ensures
        steady(log),
{
    let (n, cmode) = script::lemma_runs_split(
        defime::get_mode_script(hwnd),
        detect::from_default(),
        log,
        found,
    );
    assert(log.take(n) =~= log);
    lemma_get_mode_is_steady(hwnd, log, cmode);
}

proof fn lemma_query_is_steady(hwnd: usize, log: Seq<Exchange>, found: Option<(u32, Channel)>)
    requires
        detect::query_script(hwnd).runs(log, found),
    ensures
        steady(log),
{
    reveal_with_fuel(Script::runs, 5);
    let l1 = log.drop_first();
    if log[0].reply->Handle_0 == 0 {
        lemma_query_default_is_steady(hwnd, l1, found);
    } else {
        let l2 = l1.drop_first();
        let l3 = l2.drop_first();
        if l1[0].reply->Status_0 is None {
            lemma_query_default_is_steady(hwnd, l3, found);
        }
        lemma_steady_push(l2);
        lemma_steady_push(l1);
    }
    lemma_steady_push(log);
}

proof fn lemma_mismatch_is_steady(
    hwnd: usize,
    source: Channel,
    cmode: u32,
    log: Seq<Exchange>,
    matches: bool,
)
    requires
        detect::mismatch_script(hwnd, source, cmode).runs(log, matches),
    ensures
        steady(log),
{
    reveal_with_fuel(Script::runs, 2);
    let rest = log.drop_first();
    let warning = Warning::NotNative { source, cmode };
    let (n, written) = script::lemma_runs_split(
        clock::warn_script(warning),
        detect::mismatched(),
        rest,
        matches,
    );
    assert(rest.take(n) =~= rest);
    lemma_warn_is_steady(warning, rest, written);
    lemma_steady_push(log);
}

proof fn lemma_matching_is_steady(hwnd: usize, mode: ImeMode, log: Seq<Exchange>, matches: bool)
    requires
        detect::matching_script(hwnd, mode).runs(log, matches),
    ensures
        steady(log),
{
    reveal_with_fuel(Script::runs, 4);
    let l1 = log.drop_first();
    let l2 = l1.drop_first();
    if mode is ChineseOnly && mode::language_of(l1[0].reply->Handle_0)
        == LANG_CHINESE {
        let (n, found) = script::lemma_runs_split(
            detect::query_script(hwnd),
            detect::judged(hwnd),
            l2,
            matches,
        );
        lemma_query_is_steady(hwnd, l2.take(n), found);
        match found {
            Some((cmode, source)) => if !mode::native(cmode) {
                lemma_mismatch_is_steady(hwnd, source, cmode, l2.skip(n), matches);
            },
            None => {},
        }
        lemma_steady_join(l2, n);
    }
    lemma_steady_push(l1);
    lemma_steady_push(log);
}

proof fn lemma_modifiers_are_steady(key: shift::ModifierKey, log: Seq<Exchange>, any: bool)
    requires
        shift::modifiers_from(key).runs(log, any),
    ensures
        steady(log),
    decreases 10 - key.position(),
{
    reveal_with_fuel(Script::runs, 2);
    match key.successor() {
        Some(next) => if !shift::held(log[0].reply->Key_0) {
            lemma_modifiers_are_steady(next, log.drop_first(), any);
        },
        None => {},
    }
    lemma_steady_push(log);
}

proof fn lemma_tap_is_steady(log: Seq<Exchange>, tapped: bool)
    requires
        shift::tap_script().runs(log, tapped),
    ensures
        steady(log),
{
    reveal_with_fuel(Script::runs, 3);
    let (n, any) = script::lemma_runs_split(
        shift::modifiers_script(),
        shift::tap_unless(),
        log,
        tapped,
    );
    let rest = log.skip(n);
    lemma_modifiers_are_steady(shift::ModifierKey::Shift, log.take(n), any);
    if any {
        let (m, written) = script::lemma_runs_split(
            clock::warn_script(Warning::ModifierHeld),
            shift::not_tapped(),
            rest,
            tapped,
        );
        assert(rest.take(m) =~= rest);
        lemma_warn_is_steady(Warning::ModifierHeld, rest, written);
    } else {
        lemma_steady_push(rest);
    }
    lemma_steady_join(log, n);
}

proof fn lemma_give_up_is_steady(
    warning: Warning,
    log: Seq<Exchange>,
    channel: Option<Channel>,
)
    requires
        convert::apply_give_up(warning).runs(log, channel),
    ensures
        steady(log),
{
    let (n, written) = script::lemma_runs_split(
        clock::warn_script(warning),
        convert::apply_failed(),
        log,
        channel,
    );
    assert(log.take(n) =~= log);
    lemma_warn_is_steady(warning, log, written);
}

proof fn lemma_apply_warn_is_steady(
    mode: ImeMode,
    warning: Warning,
    log: Seq<Exchange>,
    channel: Option<Channel>,
)
    requires
        convert::apply_warn(mode, warning).runs(log, channel),
    ensures
        steady(log),
{
    let (n, written) = script::lemma_runs_split(
        clock::warn_script(warning),
        convert::apply_last(mode),
        log,
        channel,
    );
    let rest = log.skip(n);
    lemma_warn_is_steady(warning, log.take(n), written);
    match mode {
        ImeMode::ChineseOnly => {
            let (m, tapped) = script::lemma_runs_split(
                shift::tap_script(),
                convert::apply_tapped(),
                rest,
                channel,
            );
            lemma_tap_is_steady(rest.take(m), tapped);
            if !tapped {
                lemma_give_up_is_steady(Warning::ShiftNotSent, rest.skip(m), channel);
            }
            lemma_steady_join(rest, m);
        },
        ImeMode::EnglishOnly => {
            lemma_give_up_is_steady(Warning::AllChannelsFailed, rest, channel);
        },
    }
    lemma_steady_join(log, n);
}

proof fn lemma_apply_default_is_steady(
    hwnd: usize,
    mode: ImeMode,
    log: Seq<Exchange>,
    channel: Option<Channel>,
)
    requires
        convert::apply_default(hwnd, mode).runs(log, channel),
    ensures
        steady(log),
{
    let (n, found) = script::lemma_runs_split(
        defime::get_mode_script(hwnd),
        convert::apply_read(hwnd, mode),
        log,
        channel,
    );
    let rest = log.skip(n);
    lemma_get_mode_is_steady(hwnd, log.take(n), found);
    match found {
        Some(old) => {
            let cmode = mode.pinned(old) as u32;
            let (m, accepted) = script::lemma_runs_split(
                defime::set_mode_script(hwnd, cmode),
                convert::apply_written(mode),
                rest,
                channel,
            );
            lemma_set_mode_is_steady(hwnd, cmode, rest.take(m), accepted);
            if !accepted {
                lemma_apply_warn_is_steady(mode, Warning::DefImeRejected, rest.skip(m), channel);
            }
            lemma_steady_join(rest, m);
        },
        None => {
            lemma_apply_warn_is_steady(mode, Warning::DefImeUnavailable, rest, channel);
        },
    }
    lemma_steady_join(log, n);
}

proof fn lemma_apply_is_steady(
    hwnd: usize,
    mode: ImeMode,
    log: Seq<Exchange>,
    channel: Option<Channel>,
)
    requires
        convert::apply_script(hwnd, mode).runs(log, channel),
    ensures
        steady(log),
{
    reveal_with_fuel(Script::runs, 6);
    let l1 = log.drop_first();
    if log[0].reply->Handle_0 == 0 {
        lemma_apply_default_is_steady(hwnd, mode, l1, channel);
    } else {
        let l2 = l1.drop_first();
        let l3 = l2.drop_first();
        if l1[0].reply->Status_0 is None {
            lemma_apply_default_is_steady(hwnd, mode, l3, channel);
        } else {
            if !l2[0].reply->Flag_0 {
                lemma_apply_default_is_steady(hwnd, mode, l3.drop_first(), channel);
            }
            lemma_steady_push(l3);
        }
        lemma_steady_push(l2);
        lemma_steady_push(l1);
    }
    lemma_steady_push(log);
}

proof fn lemma_convert_is_steady(
    hwnd: usize,
    mode: ImeMode,
    log: Seq<Exchange>,
    done: Enforcement,
)
    requires
        enforce::enforce_convert(hwnd, mode).runs(log, done),
    ensures
        steady(log),
{
    reveal_with_fuel(Script::runs, 3);
    let (n, channel) = script::lemma_runs_split(
        convert::apply_script(hwnd, mode),
        enforce::enforce_converted(mode),
        log,
        done,
    );
    lemma_apply_is_steady(hwnd, mode, log.take(n), channel);
    let rest = log.skip(n);
    let end = rest.drop_first();
    let (m, check) = script::lemma_runs_split(
        layout::verify_script(mode),
        enforce::enforce_verified(channel),
        end,
        done,
    );
    assert(end.take(m) =~= end);
    lemma_steady_push(end);
    lemma_steady_push(rest);
    lemma_steady_join(log, n);
}

proof fn lemma_activate_is_steady(
    hwnd: usize,
    mode: ImeMode,
    hkl: usize,
    log: Seq<Exchange>,
    done: Enforcement,
)
    requires
        enforce::enforce_activate(hwnd, mode, hkl).runs(log, done),
    ensures
        steady(log),
{
    reveal_with_fuel(Script::runs, 5);
    let l1 = log.drop_first();
    let l2 = l1.drop_first();
    let l3 = l2.drop_first();
    if log[0].reply->Flag_0 || l1[0].reply->Loaded_0 is None || l1[0].reply->Loaded_0->0 == 0 {
        lemma_convert_is_steady(hwnd, mode, l2, done);
    } else {
        if l2[0].reply->Flag_0 {
            lemma_convert_is_steady(hwnd, mode, l3.drop_first(), done);
            lemma_steady_push(l3);
        } else {
            lemma_convert_is_steady(hwnd, mode, l3, done);
        }
        lemma_steady_push(l2);
    }
    lemma_steady_push(l1);
    lemma_steady_push(log);
}

proof fn lemma_enforce_is_steady(
    hwnd: usize,
    mode: ImeMode,
    log: Seq<Exchange>,
    done: Enforcement,
)
    requires
        enforce::enforce_script(hwnd, mode).runs(log, done),
    ensures
        steady(log),
{
    reveal_with_fuel(Script::runs, 4);
    let (n, hkl) = script::lemma_runs_split(
        layout::resolve_script(mode),
        enforce::enforce_resolved(hwnd, mode),
        log,
        done,
    );
    let first = log.take(n);
    if first.drop_first().len() > 0 {
        lemma_steady_push(first.drop_first());
    }
    lemma_steady_push(first);
    lemma_activate_is_steady(hwnd, mode, hkl, log.skip(n), done);
    lemma_steady_join(log, n);
}

proof fn lemma_correct_is_steady(hwnd: usize, mode: ImeMode, log: Seq<Exchange>, outcome: Outcome)
    requires
        watch::correct_script(hwnd, mode).runs(log, outcome),
    ensures
        steady(log),
{
    let (n, matches) = script::lemma_runs_split(
        detect::matching_script(hwnd, mode),
        watch::correct_detected(hwnd, mode),
        log,
        outcome,
    );
    let rest = log.skip(n);
    lemma_matching_is_steady(hwnd, mode, log.take(n), matches);
    if !matches {
        let (m, done) = script::lemma_runs_split(
            enforce::enforce_script(hwnd, mode),
            watch::correct_enforced(),
            rest,
            outcome,
        );
        assert(rest.take(m) =~= rest);
        lemma_enforce_is_steady(hwnd, mode, rest, done);
    }
    lemma_steady_join(log, n);
}

/// Detection keeps to the throttling of warnings.
pub proof fn law_detection_is_throttled(
    hwnd: usize,
    mode: ImeMode,
    log: Seq<Exchange>,
    matches: bool,
)
    requires
        detect::matching_script(hwnd, mode).runs(log, matches),
    ensures
        throttled(log),
{
    lemma_matching_is_steady(hwnd, mode, log, matches);
}

/// Pinning the conversion mode keeps to the throttling of warnings.
pub proof fn law_conversion_is_throttled(
    hwnd: usize,
    mode: ImeMode,
    log: Seq<Exchange>,
    channel: Option<Channel>,
)
    requires
        convert::apply_script(hwnd, mode).runs(log, channel),
    ensures
        throttled(log),
{
    lemma_apply_is_steady(hwnd, mode, log, channel);
}

/// An enforcement keeps to the throttling of warnings.
pub proof fn law_enforcement_is_throttled(
    hwnd: usize,
    mode: ImeMode,
    log: Seq<Exchange>,
    done: Enforcement,
)
    requires
        enforce::enforce_script(hwnd, mode).runs(log, done),
    ensures
        throttled(log),
{
    lemma_enforce_is_steady(hwnd, mode, log, done);
}

/// A tick of the timer keeps to the throttling of warnings, and does not touch the foreground event
/// that was handled last.
pub proof fn law_timer_is_throttled(log: Seq<Exchange>, outcome: Outcome)
    requires
        watch::timer_script().runs(log, outcome),
    ensures
        throttled(log),
        forall|i: int| 0 <= i < log.len() ==> !minds_events((#[trigger] log[i]).call),
{
    reveal_with_fuel(Script::runs, 3);
    let l1 = log.drop_first();
    if log[0].reply->Settings_0.master_switch {
        if l1[0].reply->Handle_0 != 0 {
            lemma_correct_is_steady(
                l1[0].reply->Handle_0,
                log[0].reply->Settings_0.ime_mode,
                l1.drop_first(),
                outcome,
            );
        }
        lemma_steady_push(l1);
    }
    lemma_steady_push(log);
}

/// A foreground event keeps to the throttling of warnings.
pub proof fn law_foreground_event_is_throttled(hwnd: usize, log: Seq<Exchange>, outcome: Outcome)
    requires
        watch::foreground_script(hwnd).runs(log, outcome),
    ensures
        throttled(log),
{
    laws::law_foreground_event(hwnd, log, outcome);
    let l1 = log.drop_first();
    let l2 = l1.drop_first();
    let l3 = l2.drop_first();
    let l4 = l3.drop_first();
    assert(log[1] == l1[0]);
    if log.len() > 2 {
        assert(log[2] == l2[0]);
        assert(log[3] == l3[0]);
        if log.len() > 4 {
            assert(log[4] == l4[0]);
            assert(log.skip(5) =~= l4.drop_first());
            lemma_correct_is_steady(
                hwnd,
                log[3].reply->Settings_0.ime_mode,
                log.skip(5),
                outcome,
            );
            lemma_throttled_push(l4);
        }
        lemma_throttled_push(l3);
        lemma_throttled_push(l2);
    }
    lemma_throttled_push(l1);
    lemma_throttled_push(log);
}

/// A hot key has to do with neither warnings nor foreground events.
pub proof fn law_hotkey_is_throttled(
    ids: HotkeyIds,
    hwnd: usize,
    wparam: usize,
    log: Seq<Exchange>,
    action: Option<HotkeyAction>,
)
    requires
        hotkey::hotkey_script(ids, hwnd, wparam).runs(log, action),
    ensures
        throttled(log),
        forall|i: int|
            0 <= i < log.len() ==> !((#[trigger] log[i]).call is ExchangeStamp) && !(log[i].call
                is WriteWarning) && !minds_events(log[i].call),
{
    if wparam as i32 == ids.toggle {
        laws::law_toggle_flips_the_switch(ids, hwnd, wparam, log, action);
    } else if wparam as i32 == ids.switch_mode {
        laws::law_switch_changes_the_mode(ids, hwnd, wparam, log, action);
    } else {
        laws::law_unknown_hotkey_is_ignored(ids, hwnd, wparam, log, action);
    }
    assert forall|i: int| 0 <= i < log.len() implies plain((#[trigger] log[i]).call) by {
        assert(i == 0 || i == 1 || i == 2 || i == 3 || i == 4);
    }
    assert forall|i: int| 0 <= i < log.len() implies #[trigger] throttled_at(log, i) by {
        assert(plain(log[i].call));
    }
}

/// The foreground event that counts as handled last after a log of exchanges, if it was `last`
/// before.
pub open spec fn event_after(last: LastEvent, log: Seq<Exchange>) -> LastEvent
    decreases log.len(),
{
    if log.len() == 0 {
        last
    } else {
        match log.last().call {
            Call::StoreLastEvent(event) => event,
            _ => event_after(last, log.drop_last()),
        }
    }
}

/// Whether every load of the event that was handled last gets what was stored last, or `last` if
/// nothing was.
pub open spec fn event_answers(last: LastEvent, log: Seq<Exchange>) -> bool {
    forall|i: int|
        0 <= i < log.len() && (#[trigger] log[i]).call is LoadLastEvent ==> log[i].reply->Event_0
            == event_after(last, log.take(i))
}

/// The foreground event that counts as handled last before the run with index `k`, when each run
/// finds what the one before it left and the first one finds `last`.
pub open spec fn event_before(last: LastEvent, runs: Seq<Seq<Exchange>>, k: int) -> LastEvent
    decreases k,
{
    if k <= 0 {
        last
    } else {
        event_after(event_before(last, runs, k - 1), runs[k - 1])
    }
}

/// The event that a run handles or ignores: its window, and the time that it reads from the clock.
pub open spec fn event_of(hwnd: usize, log: Seq<Exchange>) -> LastEvent {
    LastEvent { hwnd, ms: clock::clock_ms(log[0].reply->Clock_0) }
}

/// Foreground events on windows, one after the other: each finds what the one before it left.
pub open spec fn events_in_turn(
    last: LastEvent,
    windows: Seq<usize>,
    runs: Seq<Seq<Exchange>>,
    outcomes: Seq<Outcome>,
) -> bool {
    &&& runs.len() == windows.len()
    &&& outcomes.len() == windows.len()
    &&& forall|k: int|
        #![trigger runs[k]]
        0 <= k < runs.len() ==> watch::foreground_script(windows[k]).runs(runs[k], outcomes[k])
            && event_answers(event_before(last, runs, k), runs[k])
}

/// Exchanges that have nothing to do with events do not change which was handled last.
proof fn lemma_event_stays(last: LastEvent, log: Seq<Exchange>, n: int)
    requires
        0 <= n <= log.len(),
        forall|i: int| n <= i < log.len() ==> !minds_events((#[trigger] log[i]).call),
    ensures
        event_after(last, log) == event_after(last, log.take(n)),
    decreases log.len(),
{
    if n < log.len() {
        let before = log.drop_last();
        assert(!minds_events(log[log.len() - 1].call));
        assert(forall|i: int| 0 <= i < before.len() ==> #[trigger] before[i] == log[i]);
        lemma_event_stays(last, before, n);
        assert(before.take(n) =~= log.take(n));
    } else {
        assert(log.take(n) =~= log);
    }
}

/// A foreground event is ignored exactly if it repeats the window that was handled last, within the
/// debounce time of the event that was handled. If it is not ignored, it counts as handled last
/// from then on; if it is, the event before it still does.
pub proof fn law_event_is_handled_unless_repeated(
    last: LastEvent,
    windows: Seq<usize>,
    runs: Seq<Seq<Exchange>>,
    outcomes: Seq<Outcome>,
    k: int,
)
    requires
        events_in_turn(last, windows, runs, outcomes),
        0 <= k < runs.len(),
    ensures
        outcomes[k] == Outcome::Debounced <==> clock::debounced(
            event_before(last, runs, k),
            event_of(windows[k], runs[k]),
        ),
        event_before(last, runs, k + 1) == if outcomes[k] == Outcome::Debounced {
            event_before(last, runs, k)
        } else {
            event_of(windows[k], runs[k])
        },
{
    let log = runs[k];
    let held = event_before(last, runs, k);
    laws::law_foreground_event(windows[k], log, outcomes[k]);
    reveal_with_fuel(event_after, 4);
    assert(log[1].call is LoadLastEvent);
    assert(log.take(1).drop_last() =~= Seq::empty());
    assert(log.take(2).drop_last() =~= log.take(1));
    if log.len() == 2 {
        assert(log.take(2) =~= log);
    } else {
        let rest = log.skip(5);
        if log.len() > 4 {
            let mode = log[3].reply->Settings_0.ime_mode;
            lemma_correct_is_steady(windows[k], mode, rest, outcomes[k]);
            laws::law_correction_follows_detection(windows[k], mode, rest, outcomes[k]);
        }
        assert forall|i: int| 3 <= i < log.len() implies !minds_events(
            (#[trigger] log[i]).call,
        ) by {
            if i >= 5 {
                assert(log[i] == rest[i - 5]);
            }
        }
        lemma_event_stays(held, log, 3);
        assert(log.take(3).last() == log[2]);
    }
}

/// An event that comes at least half a second after the one that was handled last, by the clock, is
/// handled, on whatever window it is. It is remembered with its time.
pub proof fn law_late_event_is_handled(
    last: LastEvent,
    windows: Seq<usize>,
    runs: Seq<Seq<Exchange>>,
    outcomes: Seq<Outcome>,
    k: int,
)
    requires
        events_in_turn(last, windows, runs, outcomes),
        0 <= k < runs.len(),
        courses::millis(runs[k][0].reply) >= event_before(last, runs, k).ms + 500,
    ensures
        outcomes[k] != Outcome::Debounced,
        runs[k].len() >= 4,
        runs[k][2].call == Call::StoreLastEvent(
            LastEvent { hwnd: windows[k], ms: courses::millis(runs[k][0].reply) as u64 },
        ),
        event_before(last, runs, k + 1).ms == courses::millis(runs[k][0].reply),
{
    let log = runs[k];
    courses::law_foreground_course(windows[k], log, outcomes[k]);
    law_event_is_handled_unless_repeated(last, windows, runs, outcomes, k);
    courses::law_clock_reading(log[0].reply->Clock_0);
    courses::law_debounce_goes_by_distance(
        event_before(last, runs, k),
        event_of(windows[k], log),
    );
}

/// After an event that was handled, the next one that comes at least half a second later by the
/// clock is handled too, however many events were ignored in between.
pub proof fn law_wait_ends_after_half_a_second(
    last: LastEvent,
    windows: Seq<usize>,
    runs: Seq<Seq<Exchange>>,
    outcomes: Seq<Outcome>,
    j: int,
    k: int,
)
    requires
        events_in_turn(last, windows, runs, outcomes),
        0 <= j < k < runs.len(),
        outcomes[j] != Outcome::Debounced,
        forall|m: int| j < m < k ==> #[trigger] outcomes[m] == Outcome::Debounced,
        courses::millis(runs[k][0].reply) >= courses::millis(runs[j][0].reply) + 500,
    ensures
        outcomes[k] != Outcome::Debounced,
{
    lemma_ignored_events_change_nothing(last, windows, runs, outcomes, j, k);
    courses::law_clock_reading(runs[j][0].reply->Clock_0);
    courses::law_foreground_course(windows[j], runs[j], outcomes[j]);
    law_late_event_is_handled(last, windows, runs, outcomes, k);
}

/// Events that are ignored leave the event that was handled before them.
proof fn lemma_ignored_events_change_nothing(
    last: LastEvent,
    windows: Seq<usize>,
    runs: Seq<Seq<Exchange>>,
    outcomes: Seq<Outcome>,
    j: int,
    k: int,
)
    requires
        events_in_turn(last, windows, runs, outcomes),
        0 <= j < k <= runs.len(),
        outcomes[j] != Outcome::Debounced,
        forall|m: int| j < m < k ==> #[trigger] outcomes[m] == Outcome::Debounced,
    ensures
        event_before(last, runs, k) == event_of(windows[j], runs[j]),
    decreases k - j,
{
    law_event_is_handled_unless_repeated(last, windows, runs, outcomes, k - 1);
    if j < k - 1 {
        lemma_ignored_events_change_nothing(last, windows, runs, outcomes, j, k - 1);
    }
}

/// While only one window has events that are handled, the time of the event that counts as handled
/// last does not go back.
proof fn lemma_event_time_grows(
    last: LastEvent,
    windows: Seq<usize>,
    runs: Seq<Seq<Exchange>>,
    outcomes: Seq<Outcome>,
    j: int,
    k: int,
)
    requires
        events_in_turn(last, windows, runs, outcomes),
        0 <= j < k <= runs.len(),
        outcomes[j] != Outcome::Debounced,
        forall|m: int|
            j < m < k && #[trigger] outcomes[m] != Outcome::Debounced ==> windows[m] == windows[j],
    ensures
        event_before(last, runs, k).hwnd == windows[j],
        event_before(last, runs, k).ms >= event_of(windows[j], runs[j]).ms,
    decreases k - j,
{
    law_event_is_handled_unless_repeated(last, windows, runs, outcomes, k - 1);
    if j < k - 1 {
        lemma_event_time_grows(last, windows, runs, outcomes, j, k - 1);
    }
}

/// Two events on a window that are handled, with none handled on another window in between, are at
/// least the debounce time apart.
pub proof fn law_handled_events_are_spaced(
    last: LastEvent,
    windows: Seq<usize>,
    runs: Seq<Seq<Exchange>>,
    outcomes: Seq<Outcome>,
    j: int,
    k: int,
)
    requires
        events_in_turn(last, windows, runs, outcomes),
        0 <= j < k < runs.len(),
        windows[j] == windows[k],
        outcomes[j] != Outcome::Debounced,
        outcomes[k] != Outcome::Debounced,
        forall|m: int|
            j < m < k && #[trigger] outcomes[m] != Outcome::Debounced ==> windows[m] == windows[j],
    ensures
        event_of(windows[k], runs[k]).ms - event_of(windows[j], runs[j]).ms >= EVENT_DEBOUNCE_MS,
{
    lemma_event_time_grows(last, windows, runs, outcomes, j, k);
    law_event_is_handled_unless_repeated(last, windows, runs, outcomes, k);
}

/// An event on another window than the event before it is handled, however soon it comes.
pub proof fn law_other_window_is_handled(
    last: LastEvent,
    windows: Seq<usize>,
    runs: Seq<Seq<Exchange>>,
    outcomes: Seq<Outcome>,
    k: int,
)
    requires
        events_in_turn(last, windows, runs, outcomes),
        0 < k < runs.len(),
        windows[k] != windows[k - 1],
    ensures
        outcomes[k] != Outcome::Debounced,
{
    law_event_is_handled_unless_repeated(last, windows, runs, outcomes, k - 1);
    law_event_is_handled_unless_repeated(last, windows, runs, outcomes, k);
}

/// A burst of events on one window, all within the debounce time of the first one, is handled once
/// if the first one is: events that are ignored do not prolong the wait.
pub proof fn law_burst_is_handled_once(
    last: LastEvent,
    windows: Seq<usize>,
    runs: Seq<Seq<Exchange>>,
    outcomes: Seq<Outcome>,
    j: int,
    k: int,
)
    requires
        events_in_turn(last, windows, runs, outcomes),
        0 <= j < k < runs.len(),
        outcomes[j] != Outcome::Debounced,
        forall|m: int|
            j < m <= k ==> #[trigger] windows[m] == windows[j] && clock::elapsed(
                event_of(windows[j], runs[j]).ms,
                event_of(windows[m], runs[m]).ms,
            ) < EVENT_DEBOUNCE_MS,
    ensures
        forall|m: int| j < m <= k ==> #[trigger] outcomes[m] == Outcome::Debounced,
        event_before(last, runs, k + 1) == event_of(windows[j], runs[j]),
    decreases k - j,
{
    if j + 1 < k {
        law_burst_is_handled_once(last, windows, runs, outcomes, j, k - 1);
    } else {
        law_event_is_handled_unless_repeated(last, windows, runs, outcomes, j);
    }
    law_event_is_handled_unless_repeated(last, windows, runs, outcomes, k);
}

} // verus!

//! Time: the clock, when a foreground event is ignored, and the throttling of warnings.

use vstd::prelude::*;

use crate::call::{Call, LastEvent, Reply, Warning, WarningKind};
use crate::script::{Exchange, Procedure, Script, Step};

verus! {

/// A window's foreground event is ignored this long after the last one that was handled.
pub const EVENT_DEBOUNCE_MS: u64 = 500;

/// Warnings of one kind are written at least this far apart.
pub const FAIL_LOG_THROTTLE_MS: u64 = 30_000;

/// The time that a clock reading stands for: its low 64 bits, or zero before the Unix epoch.
pub open spec fn clock_ms(reading: Option<u128>) -> u64 {
    match reading {
        Some(ms) => (ms % 0x1_0000_0000_0000_0000) as u64,
        None => 0,
    }
}

/// The time that a clock reading stands for: its low 64 bits, or zero before the Unix epoch.
pub fn now_ms(reading: Option<u128>) -> (now: u64)
    ensures
        now == clock_ms(reading),
{
    match reading {
        Some(ms) => {
            assert(ms as u64 == (ms % 0x1_0000_0000_0000_0000) as u64) by (bit_vector);
            #[verifier::truncate]
            (ms as u64)
        },
        None => 0,
    }
}

/// The time from `since` to `now`; none passes when the clock goes backwards.
pub open spec fn elapsed(since: u64, now: u64) -> int {
    if now >= since {
        now - since
    } else {
        0
    }
}

/// Whether an event is ignored: it repeats the window that was handled last, too soon.
pub open spec fn debounced(last: LastEvent, event: LastEvent) -> bool {
    event.hwnd == last.hwnd && elapsed(last.ms, event.ms) < EVENT_DEBOUNCE_MS
}

/// Whether an event is ignored: it repeats the window that was handled last, too soon.
pub fn is_debounced(last: LastEvent, event: LastEvent) -> (ignored: bool)
    ensures
        ignored == debounced(last, event),
{
    event.hwnd == last.hwnd && event.ms.saturating_sub(last.ms) < EVENT_DEBOUNCE_MS
}

/// Whether enough time has passed for another warning of a kind that was written at `last`.
pub open spec fn warning_due(last: u64, now: u64) -> bool {
    elapsed(last, now) >= FAIL_LOG_THROTTLE_MS
}

/// Whether enough time has passed for another warning of a kind that was written at `last`.
pub fn is_warning_due(last: u64, now: u64) -> (due: bool)
    ensures
        due == warning_due(last, now),
{
    now.saturating_sub(last) >= FAIL_LOG_THROTTLE_MS
}

/// A throttled warning: read the clock, compare it with the last warning of the kind, and write
/// the warning if it is due and nobody else claims the slot first. Returns whether it was
/// written.
pub open spec fn warn_script(warning: Warning) -> Script<bool> {
    Script::Ask(Call::ReadClock, |r: Reply| warn_at(warning, clock_ms(r->Clock_0)))
}

/// The throttled warning at time `now`.
pub open spec fn warn_at(warning: Warning, now: u64) -> Script<bool> {
    Script::Ask(Call::LoadStamp(warning.kind()), |r: Reply| warn_since(warning, r->Stamp_0, now))
}

/// The throttled warning at time `now`, after one of its kind at `last`.
pub open spec fn warn_since(warning: Warning, last: u64, now: u64) -> Script<bool> {
    if warning_due(last, now) {
        warn_claim(warning, last, now)
    } else {
        Script::Return(false)
    }
}

/// The throttled warning when it is due: it claims the slot of its kind.
pub open spec fn warn_claim(warning: Warning, last: u64, now: u64) -> Script<bool> {
    Script::Ask(
        Call::ExchangeStamp { kind: warning.kind(), old: last, new: now },
        |r: Reply|
            if r->Flag_0 {
                warn_write(warning)
            } else {
                Script::Return(false)
            },
    )
}

/// The throttled warning once its slot is claimed.
pub open spec fn warn_write(warning: Warning) -> Script<bool> {
    Script::Ask(Call::WriteWarning(warning), |r: Reply| Script::Return(true))
}

/// The kind under which a warning is throttled.
fn kind_of(warning: Warning) -> (kind: WarningKind)
    ensures
        kind == warning.kind(),
{
    match warning {
        Warning::NotNative { .. } => WarningKind::Mismatch,
        Warning::DefImeRejected | Warning::DefImeUnavailable => WarningKind::DefIme,
        _ => WarningKind::Shift,
    }
}

/// Procedure that writes a throttled warning.
#[derive(Clone, Copy, Debug)]
pub enum ThrottledWarn {
    /// Waits for the clock.
    Clock(Warning),
    /// Waits for the time of the last warning.
    Stamp(Warning, u64),
    /// Waits for the slot: the warning, the time of the last one and the time now.
    Claim(Warning, u64, u64),
    /// Waits for the log.
    Write(Warning),
}

/// Starts to write a throttled warning.
pub fn throttled_warn(warning: Warning) -> (procedure: ThrottledWarn)
    ensures
        procedure.script() == warn_script(warning),
{
    ThrottledWarn::Clock(warning)
}

impl Procedure for ThrottledWarn {
    type Output = bool;

    open spec fn script(&self) -> Script<bool> {
        match *self {
            ThrottledWarn::Clock(warning) => warn_script(warning),
            ThrottledWarn::Stamp(warning, now) => warn_at(warning, now),
            ThrottledWarn::Claim(warning, last, now) => warn_claim(warning, last, now),
            ThrottledWarn::Write(warning) => warn_write(warning),
        }
    }

    proof fn lemma_asks(&self) {
    }

    fn pending(&self) -> (call: Call) {
        match *self {
            ThrottledWarn::Clock(_) => Call::ReadClock,
            ThrottledWarn::Stamp(warning, _) => Call::LoadStamp(kind_of(warning)),
            ThrottledWarn::Claim(warning, last, now) => Call::ExchangeStamp {
                kind: kind_of(warning),
                old: last,
                new: now,
            },
            ThrottledWarn::Write(warning) => Call::WriteWarning(warning),
        }
    }

    fn resume(self, reply: &Reply) -> (step: Step<ThrottledWarn, bool>) {
        match (self, reply) {
            (ThrottledWarn::Clock(warning), Reply::Clock(reading)) => Step::Waits(
                ThrottledWarn::Stamp(warning, now_ms(*reading)),
            ),
            (ThrottledWarn::Stamp(warning, now), Reply::Stamp(last)) => {
                if is_warning_due(*last, now) {
                    Step::Waits(ThrottledWarn::Claim(warning, *last, now))
                } else {
                    Step::Over(false)
                }
            },
            (ThrottledWarn::Claim(warning, _, _), Reply::Flag(claimed)) => {
                if *claimed {
                    Step::Waits(ThrottledWarn::Write(warning))
                } else {
                    Step::Over(false)
                }
            },
            (ThrottledWarn::Write(_), _) => Step::Over(true),
            _ => Step::Waits(self),
        }
    }
}

/// The course of a throttled warning: it reads the clock, then the time of the last warning of its
/// kind. Unless that is long enough ago it ends there. Otherwise it tries to replace that time by
/// its own, and it is written exactly when it succeeds.
pub proof fn law_warning_needs_its_slot(warning: Warning, log: Seq<Exchange>, written: bool)
    requires
        warn_script(warning).runs(log, written),
    ensures
        log.len() >= 2,
        log[0].call == Call::ReadClock,
        log[1].call == Call::LoadStamp(warning.kind()),
        ({
            let now = clock_ms(log[0].reply->Clock_0);
            let last = log[1].reply->Stamp_0;
            if warning_due(last, now) {
                &&& log.len() == if written {
                    4int
                } else {
                    3
                }
                &&& log[2].call == (Call::ExchangeStamp {
                    kind: warning.kind(),
                    old: last,
                    new: now,
                })
                &&& log[2].reply->Flag_0 == written
                &&& written ==> log[3].call == Call::WriteWarning(warning)
            } else {
                log.len() == 2 && !written
            }
        }),
{
    reveal_with_fuel(Script::runs, 6);
    let l1 = log.drop_first();
    let l2 = l1.drop_first();
    assert(log[1] == l1[0]);
    if l2.len() > 0 {
        assert(log[2] == l2[0]);
        if l2.len() > 1 {
            assert(log[3] == l2.drop_first()[0]);
        }
    }
}

} // verus!

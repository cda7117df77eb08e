//! Watching: what happens when a window comes to the foreground, and on each tick of the timer.

use vstd::prelude::*;

use crate::call::{Call, LastEvent, Reply};
use crate::clock;
use crate::clock::{is_debounced, now_ms};
use crate::detect;
use crate::detect::{is_ime_state_matching, Matching};
use crate::enforce;
use crate::enforce::{enforce_global_ime_mode, Enforce, Enforcement};
use crate::mode::{Config, ImeMode};
use crate::script::{Procedure, Script, Step};

verus! {

/// How long a window is given to settle after it came to the foreground.
pub const SETTLE_MS: u64 = 100;

/// What a look at the input method came to.
#[derive(Clone, Copy, PartialEq, Eq, Structural, Debug)]
pub enum Outcome {
    /// The event repeats one that was just handled.
    Debounced,
    /// The tool is switched off.
    SwitchedOff,
    /// No window has the foreground.
    NoWindow,
    /// The input method already is in the mode that is wanted.
    Matched,
    /// The mode was enforced.
    Enforced(Enforcement),
}

/// Enforces a mode on `hwnd` if its input method is not in it.
pub open spec fn correct_script(hwnd: usize, mode: ImeMode) -> Script<Outcome> {
    detect::matching_script(hwnd, mode).followed_by(correct_detected(hwnd, mode))
}

/// Enforces the mode where detection says that it must be.
pub open spec fn correct_detected(hwnd: usize, mode: ImeMode) -> spec_fn(bool) -> Script<Outcome> {
    |matches: bool|
        if matches {
            Script::Return(Outcome::Matched)
        } else {
            enforce::enforce_script(hwnd, mode).followed_by(correct_enforced())
        }
}

/// Ends with what the enforcement came to.
pub open spec fn correct_enforced() -> spec_fn(Enforcement) -> Script<Outcome> {
    |done: Enforcement| Script::Return(Outcome::Enforced(done))
}

/// A window came to the foreground. Unless the event is debounced or the tool is switched off,
/// the window is corrected once it has settled.
pub open spec fn foreground_script(hwnd: usize) -> Script<Outcome> {
    Script::Ask(Call::ReadClock, |r: Reply| foreground_at(hwnd, clock::clock_ms(r->Clock_0)))
}

/// The event at time `now`, compared with the one that was handled last.
pub open spec fn foreground_at(hwnd: usize, now: u64) -> Script<Outcome> {
    Script::Ask(
        Call::LoadLastEvent,
        |r: Reply| foreground_after(r->Event_0, LastEvent { hwnd, ms: now }),
    )
}

/// The event, after another one.
pub open spec fn foreground_after(last: LastEvent, event: LastEvent) -> Script<Outcome> {
    if clock::debounced(last, event) {
        Script::Return(Outcome::Debounced)
    } else {
        foreground_store(event)
    }
}

/// Remembers the event; then come the settings.
pub open spec fn foreground_store(event: LastEvent) -> Script<Outcome> {
    Script::Ask(Call::StoreLastEvent(event), |r: Reply| foreground_config(event.hwnd))
}

/// Reads the settings.
pub open spec fn foreground_config(hwnd: usize) -> Script<Outcome> {
    Script::Ask(Call::ReadConfig, |r: Reply| foreground_with(hwnd, r->Settings_0))
}

/// Goes on in the background if the tool is switched on.
pub open spec fn foreground_with(hwnd: usize, config: Config) -> Script<Outcome> {
    if config.master_switch {
        foreground_settle(hwnd, config.ime_mode)
    } else {
        Script::Return(Outcome::SwitchedOff)
    }
}

/// Lets the window settle, then corrects it.
pub open spec fn foreground_settle(hwnd: usize, mode: ImeMode) -> Script<Outcome> {
    Script::Ask(Call::Settle(SETTLE_MS), |r: Reply| correct_script(hwnd, mode))
}

/// The timer ticks: if the tool is switched on, the foreground window is corrected.
pub open spec fn timer_script() -> Script<Outcome> {
    Script::Ask(Call::ReadConfig, |r: Reply| timer_with(r->Settings_0))
}

/// Goes on if the tool is switched on.
pub open spec fn timer_with(config: Config) -> Script<Outcome> {
    if config.master_switch {
        timer_window(config.ime_mode)
    } else {
        Script::Return(Outcome::SwitchedOff)
    }
}

/// Corrects the foreground window, if there is one.
pub open spec fn timer_window(mode: ImeMode) -> Script<Outcome> {
    Script::Ask(
        Call::ForegroundWindow,
        |r: Reply|
            if r->Handle_0 == 0 {
                Script::Return(Outcome::NoWindow)
            } else {
                correct_script(r->Handle_0, mode)
            },
    )
}

/// Procedure that looks at the input method of a window and corrects it.
#[derive(Clone, Copy, Debug)]
pub enum Watch {
    /// Waits for the time of an event on a window.
    Clock(usize),
    /// Waits for the event before one on a window at a time.
    Last(usize, u64),
    /// Waits until an event is remembered.
    Store(LastEvent),
    /// Waits for the settings, after an event on a window.
    EventConfig(usize),
    /// Waits until a window has settled.
    Settle(usize, ImeMode),
    /// Waits for the settings, after a tick of the timer.
    TimerConfig,
    /// Waits for the foreground window.
    Foreground(ImeMode),
    /// Finds out whether a window has to be corrected.
    Detect(usize, ImeMode, Matching),
    /// Enforces the mode.
    Enforce(Enforce),
}

/// Starts to handle that `hwnd` came to the foreground.
pub fn event_hook_callback(hwnd: usize) -> (procedure: Watch)
    ensures
        procedure.script() == foreground_script(hwnd),
{
    Watch::Clock(hwnd)
}

/// Starts to handle a tick of the timer.
pub fn handle_ime_check_timer() -> (procedure: Watch)
    ensures
        procedure.script() == timer_script(),
{
    Watch::TimerConfig
}

impl Watch {
    /// Goes on to correct `hwnd`.
    fn correct(hwnd: usize, mode: ImeMode) -> (next: Watch)
        ensures
            next.script() == correct_script(hwnd, mode),
    {
        Watch::Detect(hwnd, mode, is_ime_state_matching(hwnd, mode))
    }

    /// Goes on with the detection.
    fn with_detection(hwnd: usize, mode: ImeMode, step: Step<Matching, bool>) -> (next: Step<
        Watch,
        Outcome,
    >)
        ensures
            next matches Step::Waits(p) ==> p.script() == step.script().followed_by(
                correct_detected(hwnd, mode),
            ),
            next matches Step::Over(r) ==> step.script().followed_by(correct_detected(hwnd, mode))
                == Script::Return(r),
    {
        match step {
            Step::Waits(inner) => Step::Waits(Watch::Detect(hwnd, mode, inner)),
            Step::Over(true) => Step::Over(Outcome::Matched),
            Step::Over(false) => Step::Waits(Watch::Enforce(enforce_global_ime_mode(hwnd, mode))),
        }
    }

    /// Goes on with the enforcement.
    fn with_enforcement(step: Step<Enforce, Enforcement>) -> (next: Step<Watch, Outcome>)
        ensures
            next matches Step::Waits(p) ==> p.script() == step.script().followed_by(
                correct_enforced(),
            ),
            next matches Step::Over(r) ==> step.script().followed_by(correct_enforced())
                == Script::Return(r),
    {
        match step {
            Step::Waits(inner) => Step::Waits(Watch::Enforce(inner)),
            Step::Over(done) => Step::Over(Outcome::Enforced(done)),
        }
    }
}

impl Procedure for Watch {
    type Output = Outcome;

    open spec fn script(&self) -> Script<Outcome> {
        match *self {
            Watch::Clock(hwnd) => foreground_script(hwnd),
            Watch::Last(hwnd, now) => foreground_at(hwnd, now),
            Watch::Store(event) => foreground_store(event),
            Watch::EventConfig(hwnd) => foreground_config(hwnd),
            Watch::Settle(hwnd, mode) => foreground_settle(hwnd, mode),
            Watch::TimerConfig => timer_script(),
            Watch::Foreground(mode) => timer_window(mode),
            Watch::Detect(hwnd, mode, inner) => inner.script().followed_by(
                correct_detected(hwnd, mode),
            ),
            Watch::Enforce(inner) => inner.script().followed_by(correct_enforced()),
        }
    }

    proof fn lemma_asks(&self) {
        match *self {
            Watch::Detect(_, _, inner) => inner.lemma_asks(),
            Watch::Enforce(inner) => inner.lemma_asks(),
            _ => {},
        }
    }

    fn pending(&self) -> (call: Call) {
        match *self {
            Watch::Clock(_) => Call::ReadClock,
            Watch::Last(_, _) => Call::LoadLastEvent,
            Watch::Store(event) => Call::StoreLastEvent(event),
            Watch::EventConfig(_) => Call::ReadConfig,
            Watch::Settle(_, _) => Call::Settle(SETTLE_MS),
            Watch::TimerConfig => Call::ReadConfig,
            Watch::Foreground(_) => Call::ForegroundWindow,
            Watch::Detect(_, _, inner) => inner.pending(),
            Watch::Enforce(inner) => inner.pending(),
        }
    }

    fn resume(self, reply: &Reply) -> (step: Step<Watch, Outcome>) {
        match (self, reply) {
            (Watch::Clock(hwnd), Reply::Clock(reading)) => Step::Waits(
                Watch::Last(hwnd, now_ms(*reading)),
            ),
            (Watch::Last(hwnd, now), Reply::Event(last)) => {
                let event = LastEvent { hwnd, ms: now };
                if is_debounced(*last, event) {
                    Step::Over(Outcome::Debounced)
                } else {
                    Step::Waits(Watch::Store(event))
                }
            },
            (Watch::Store(event), _) => Step::Waits(Watch::EventConfig(event.hwnd)),
            (Watch::EventConfig(hwnd), Reply::Settings(config)) => {
                if config.master_switch {
                    Step::Waits(Watch::Settle(hwnd, config.ime_mode))
                } else {
                    Step::Over(Outcome::SwitchedOff)
                }
            },
            (Watch::Settle(hwnd, mode), _) => Step::Waits(Watch::correct(hwnd, mode)),
            (Watch::TimerConfig, Reply::Settings(config)) => {
                if config.master_switch {
                    Step::Waits(Watch::Foreground(config.ime_mode))
                } else {
                    Step::Over(Outcome::SwitchedOff)
                }
            },
            (Watch::Foreground(mode), Reply::Handle(hwnd)) => {
                if *hwnd == 0 {
                    Step::Over(Outcome::NoWindow)
                } else {
                    Step::Waits(Watch::correct(*hwnd, mode))
                }
            },
            (Watch::Detect(hwnd, mode, inner), _) => {
                proof {
                    inner.lemma_asks();
                }
                Watch::with_detection(hwnd, mode, inner.resume(reply))
            },
            (Watch::Enforce(inner), _) => {
                proof {
                    inner.lemma_asks();
                }
                Watch::with_enforcement(inner.resume(reply))
            },
            _ => Step::Waits(self),
        }
    }
}

} // verus!

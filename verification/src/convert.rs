//! Writing the conversion mode of a window, through the first channel that works.

use vstd::prelude::*;

use crate::call::{Call, Channel, Reply, Warning};
use crate::clock;
use crate::clock::{throttled_warn, ThrottledWarn};
use crate::defime;
use crate::defime::{
    get_conversion_mode_via_defime, set_conversion_mode_via_defime, GetMode, SetMode,
};
use crate::mode::ImeMode;
use crate::script::{Procedure, Script, Step};
use crate::shift;
use crate::shift::{send_shift_tap, ShiftTap};

verus! {

/// Pins the conversion mode of `hwnd`: through its input context, else through its default
/// input-method window, else, for Chinese, by a tap of Shift. Returns the channel that worked.
pub open spec fn apply_script(hwnd: usize, mode: ImeMode) -> Script<Option<Channel>> {
    Script::Ask(Call::GetContext(hwnd), |r: Reply| apply_context(hwnd, mode, r->Handle_0))
}

/// Pins the mode through the context `himc`, if it is one.
pub open spec fn apply_context(hwnd: usize, mode: ImeMode, himc: usize) -> Script<Option<Channel>> {
    if himc == 0 {
        apply_default(hwnd, mode)
    } else {
        apply_status(hwnd, mode, himc)
    }
}

/// Reads the status of the context, to be written back with the native bit pinned.
pub open spec fn apply_status(hwnd: usize, mode: ImeMode, himc: usize) -> Script<Option<Channel>> {
    Script::Ask(
        Call::GetConversionStatus(himc),
        |r: Reply|
            match r->Status_0 {
                Some((cmode, smode)) => apply_set(
                    hwnd,
                    mode,
                    himc,
                    mode.pinned(cmode) as u32,
                    smode,
                ),
                None => apply_release(hwnd, mode, himc, false),
            },
    )
}

/// Writes the status of the context.
pub open spec fn apply_set(
    hwnd: usize,
    mode: ImeMode,
    himc: usize,
    cmode: u32,
    smode: u32,
) -> Script<Option<Channel>> {
    Script::Ask(
        Call::SetConversionStatus(himc, cmode, smode),
        |r: Reply| apply_release(hwnd, mode, himc, r->Flag_0),
    )
}

/// Gives the context back, and is done if it took the mode.
pub open spec fn apply_release(
    hwnd: usize,
    mode: ImeMode,
    himc: usize,
    taken: bool,
) -> Script<Option<Channel>> {
    Script::Ask(
        Call::ReleaseContext(hwnd, himc),
        |r: Reply|
            if taken {
                Script::Return(Some(Channel::Imm32))
            } else {
                apply_default(hwnd, mode)
            },
    )
}

/// Pins the mode through the default input-method window.
pub open spec fn apply_default(hwnd: usize, mode: ImeMode) -> Script<Option<Channel>> {
    defime::get_mode_script(hwnd).followed_by(apply_read(hwnd, mode))
}

/// Writes back the mode that was read, with the native bit pinned.
pub open spec fn apply_read(hwnd: usize, mode: ImeMode) -> spec_fn(Option<u32>) -> Script<
    Option<Channel>,
> {
    |found: Option<u32>|
        match found {
            Some(cmode) => defime::set_mode_script(hwnd, mode.pinned(cmode) as u32).followed_by(
                apply_written(mode),
            ),
            None => apply_warn(mode, Warning::DefImeUnavailable),
        }
}

/// Is done if the mode was accepted.
pub open spec fn apply_written(mode: ImeMode) -> spec_fn(bool) -> Script<Option<Channel>> {
    |accepted: bool|
        if accepted {
            Script::Return(Some(Channel::DefImeWnd))
        } else {
            apply_warn(mode, Warning::DefImeRejected)
        }
}

/// Warns that the default input-method window failed, and goes on to the last channel.
pub open spec fn apply_warn(mode: ImeMode, warning: Warning) -> Script<Option<Channel>> {
    clock::warn_script(warning).followed_by(apply_last(mode))
}

/// The last channel: Shift for Chinese, none for English.
pub open spec fn apply_last(mode: ImeMode) -> spec_fn(bool) -> Script<Option<Channel>> {
    |written: bool|
        match mode {
            ImeMode::ChineseOnly => shift::tap_script().followed_by(apply_tapped()),
            ImeMode::EnglishOnly => apply_give_up(Warning::AllChannelsFailed),
        }
}

/// Is done if Shift was tapped.
pub open spec fn apply_tapped() -> spec_fn(bool) -> Script<Option<Channel>> {
    |tapped: bool|
        if tapped {
            Script::Return(Some(Channel::ShiftTap))
        } else {
            apply_give_up(Warning::ShiftNotSent)
        }
}

/// Warns, and ends without a channel that worked.
pub open spec fn apply_give_up(warning: Warning) -> Script<Option<Channel>> {
    clock::warn_script(warning).followed_by(apply_failed())
}

/// No channel worked, whether or not the warning was written.
pub open spec fn apply_failed() -> spec_fn(bool) -> Script<Option<Channel>> {
    |written: bool| Script::Return(None)
}

/// Procedure that pins the conversion mode of a window.
#[derive(Clone, Copy, Debug)]
pub enum Apply {
    /// Waits for the input context of a window.
    Context(usize, ImeMode),
    /// Waits for the status of the window's context.
    Status(usize, ImeMode, usize),
    /// Waits until the context has taken conversion and sentence mode.
    Put(usize, ImeMode, usize, u32, u32),
    /// Waits for the release of the context; it is known whether the mode was taken.
    Release(usize, ImeMode, usize, bool),
    /// Reads from the default input-method window.
    Read(usize, ImeMode, GetMode),
    /// Writes to the default input-method window.
    Write(ImeMode, SetMode),
    /// Warns that the default input-method window failed.
    Warn(ImeMode, ThrottledWarn),
    /// Taps Shift.
    Tap(ShiftTap),
    /// Warns that the last channel failed.
    GiveUp(ThrottledWarn),
}

/// Starts to pin the conversion mode of `hwnd`.
pub fn apply_ime_conversion_status(hwnd: usize, ime_mode: ImeMode) -> (procedure: Apply)
    ensures
        procedure.script() == apply_script(hwnd, ime_mode),
{
    Apply::Context(hwnd, ime_mode)
}

impl Apply {
    /// Goes on with the default input-method window of `hwnd`.
    fn by_default(hwnd: usize, mode: ImeMode) -> (next: Apply)
        ensures
            next.script() == apply_default(hwnd, mode),
    {
        Apply::Read(hwnd, mode, get_conversion_mode_via_defime(hwnd))
    }

    /// Goes on with what was read from the default input-method window so far.
    fn with_read(hwnd: usize, mode: ImeMode, step: Step<GetMode, Option<u32>>) -> (next: Apply)
        ensures
            next.script() == step.script().followed_by(apply_read(hwnd, mode)),
    {
        match step {
            Step::Waits(inner) => Apply::Read(hwnd, mode, inner),
            Step::Over(Some(cmode)) => Apply::Write(
                mode,
                set_conversion_mode_via_defime(hwnd, mode.pin(cmode)),
            ),
            Step::Over(None) => Apply::Warn(mode, throttled_warn(Warning::DefImeUnavailable)),
        }
    }

    /// Goes on with what became of the write to the default input-method window so far.
    fn with_write(mode: ImeMode, step: Step<SetMode, bool>) -> (next: Step<
        Apply,
        Option<Channel>,
    >)
        ensures
            next matches Step::Waits(p) ==> p.script() == step.script().followed_by(
                apply_written(mode),
            ),
            next matches Step::Over(r) ==> step.script().followed_by(apply_written(mode))
                == Script::Return(r),
    {
        match step {
            Step::Waits(inner) => Step::Waits(Apply::Write(mode, inner)),
            Step::Over(true) => Step::Over(Some(Channel::DefImeWnd)),
            Step::Over(false) => Step::Waits(
                Apply::Warn(mode, throttled_warn(Warning::DefImeRejected)),
            ),
        }
    }

    /// Goes on with the first warning.
    fn with_warning(mode: ImeMode, step: Step<ThrottledWarn, bool>) -> (next: Apply)
        ensures
            next.script() == step.script().followed_by(apply_last(mode)),
    {
        match step {
            Step::Waits(inner) => Apply::Warn(mode, inner),
            Step::Over(_) => match mode {
                ImeMode::ChineseOnly => Apply::Tap(send_shift_tap()),
                ImeMode::EnglishOnly => Apply::GiveUp(throttled_warn(Warning::AllChannelsFailed)),
            },
        }
    }

    /// Goes on with what became of the tap so far.
    fn with_tap(step: Step<ShiftTap, bool>) -> (next: Step<Apply, Option<Channel>>)
        ensures
            next matches Step::Waits(p) ==> p.script() == step.script().followed_by(
                apply_tapped(),
            ),
            next matches Step::Over(r) ==> step.script().followed_by(apply_tapped())
                == Script::Return(r),
    {
        match step {
            Step::Waits(inner) => Step::Waits(Apply::Tap(inner)),
            Step::Over(true) => Step::Over(Some(Channel::ShiftTap)),
            Step::Over(false) => Step::Waits(
                Apply::GiveUp(throttled_warn(Warning::ShiftNotSent)),
            ),
        }
    }

    /// Goes on with the last warning.
    fn with_last_warning(step: Step<ThrottledWarn, bool>) -> (next: Step<Apply, Option<Channel>>)
        ensures
            next matches Step::Waits(p) ==> p.script() == step.script().followed_by(
                apply_failed(),
            ),
            next matches Step::Over(r) ==> step.script().followed_by(apply_failed())
                == Script::Return(r),
    {
        match step {
            Step::Waits(inner) => Step::Waits(Apply::GiveUp(inner)),
            Step::Over(_) => Step::Over(None),
        }
    }
}

impl Procedure for Apply {
    type Output = Option<Channel>;

    open spec fn script(&self) -> Script<Option<Channel>> {
        match *self {
            Apply::Context(hwnd, mode) => apply_script(hwnd, mode),
            Apply::Status(hwnd, mode, himc) => apply_status(hwnd, mode, himc),
            Apply::Put(hwnd, mode, himc, cmode, smode) => apply_set(
                hwnd,
                mode,
                himc,
                cmode,
                smode,
            ),
            Apply::Release(hwnd, mode, himc, taken) => apply_release(hwnd, mode, himc, taken),
            Apply::Read(hwnd, mode, inner) => inner.script().followed_by(apply_read(hwnd, mode)),
            Apply::Write(mode, inner) => inner.script().followed_by(apply_written(mode)),
            Apply::Warn(mode, inner) => inner.script().followed_by(apply_last(mode)),
            Apply::Tap(inner) => inner.script().followed_by(apply_tapped()),
            Apply::GiveUp(inner) => inner.script().followed_by(apply_failed()),
        }
    }

    proof fn lemma_asks(&self) {
        match *self {
            Apply::Read(_, _, inner) => inner.lemma_asks(),
            Apply::Write(_, inner) => inner.lemma_asks(),
            Apply::Warn(_, inner) => inner.lemma_asks(),
            Apply::Tap(inner) => inner.lemma_asks(),
            Apply::GiveUp(inner) => inner.lemma_asks(),
            _ => {},
        }
    }

    fn pending(&self) -> (call: Call) {
        match *self {
            Apply::Context(hwnd, _) => Call::GetContext(hwnd),
            Apply::Status(_, _, himc) => Call::GetConversionStatus(himc),
            Apply::Put(_, _, himc, cmode, smode) => Call::SetConversionStatus(himc, cmode, smode),
            Apply::Release(hwnd, _, himc, _) => Call::ReleaseContext(hwnd, himc),
            Apply::Read(_, _, inner) => inner.pending(),
            Apply::Write(_, inner) => inner.pending(),
            Apply::Warn(_, inner) => inner.pending(),
            Apply::Tap(inner) => inner.pending(),
            Apply::GiveUp(inner) => inner.pending(),
        }
    }

    fn resume(self, reply: &Reply) -> (step: Step<Apply, Option<Channel>>) {
        match (self, reply) {
            (Apply::Context(hwnd, mode), Reply::Handle(himc)) => {
                if *himc == 0 {
                    Step::Waits(Apply::by_default(hwnd, mode))
                } else {
                    Step::Waits(Apply::Status(hwnd, mode, *himc))
                }
            },
            (Apply::Status(hwnd, mode, himc), Reply::Status(status)) => match *status {
                Some((cmode, smode)) => Step::Waits(
                    Apply::Put(hwnd, mode, himc, mode.pin(cmode), smode),
                ),
                None => Step::Waits(Apply::Release(hwnd, mode, himc, false)),
            },
            (Apply::Put(hwnd, mode, himc, _, _), Reply::Flag(taken)) => Step::Waits(
                Apply::Release(hwnd, mode, himc, *taken),
            ),
            (Apply::Release(hwnd, mode, _, taken), _) => {
                if taken {
                    Step::Over(Some(Channel::Imm32))
                } else {
                    Step::Waits(Apply::by_default(hwnd, mode))
                }
            },
            (Apply::Read(hwnd, mode, inner), _) => {
                proof {
                    inner.lemma_asks();
                }
                Step::Waits(Apply::with_read(hwnd, mode, inner.resume(reply)))
            },
            (Apply::Write(mode, inner), _) => {
                proof {
                    inner.lemma_asks();
                }
                Apply::with_write(mode, inner.resume(reply))
            },
            (Apply::Warn(mode, inner), _) => {
                proof {
                    inner.lemma_asks();
                }
                Step::Waits(Apply::with_warning(mode, inner.resume(reply)))
            },
            (Apply::Tap(inner), _) => {
                proof {
                    inner.lemma_asks();
                }
                Apply::with_tap(inner.resume(reply))
            },
            (Apply::GiveUp(inner), _) => {
                proof {
                    inner.lemma_asks();
                }
                Apply::with_last_warning(inner.resume(reply))
            },
            _ => Step::Waits(self),
        }
    }
}

} // verus!

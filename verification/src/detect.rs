//! Detection: whether a window's input method already is in the mode that is wanted.

use vstd::prelude::*;

use crate::call::{Call, Channel, Reply, Warning};
use crate::clock;
use crate::clock::{throttled_warn, ThrottledWarn};
use crate::defime;
use crate::defime::{get_conversion_mode_via_defime, GetMode};
use crate::mode;
use crate::mode::{is_native, layout_language, ImeMode, LANG_CHINESE, LANG_ENGLISH};
use crate::script::{Procedure, Script, Step};

verus! {

/// Reads the conversion mode of `hwnd` from its input context or, where that fails, from its
/// default input-method window. Returns the mode and where it comes from.
pub open spec fn query_script(hwnd: usize) -> Script<Option<(u32, Channel)>> {
    Script::Ask(Call::GetContext(hwnd), |r: Reply| query_context(hwnd, r->Handle_0))
}

/// Reads the conversion mode from the context `himc`, if it is one.
pub open spec fn query_context(hwnd: usize, himc: usize) -> Script<Option<(u32, Channel)>> {
    if himc == 0 {
        query_default(hwnd)
    } else {
        query_status(hwnd, himc)
    }
}

/// Reads the status of the context.
pub open spec fn query_status(hwnd: usize, himc: usize) -> Script<Option<(u32, Channel)>> {
    Script::Ask(
        Call::GetConversionStatus(himc),
        |r: Reply| query_release(hwnd, himc, r->Status_0),
    )
}

/// Gives the context back; its status is the answer if it could be read.
pub open spec fn query_release(
    hwnd: usize,
    himc: usize,
    status: Option<(u32, u32)>,
) -> Script<Option<(u32, Channel)>> {
    Script::Ask(
        Call::ReleaseContext(hwnd, himc),
        |r: Reply|
            match status {
                Some((cmode, _)) => Script::Return(Some((cmode, Channel::Imm32))),
                None => query_default(hwnd),
            },
    )
}

/// Reads the conversion mode from the default input-method window.
pub open spec fn query_default(hwnd: usize) -> Script<Option<(u32, Channel)>> {
    defime::get_mode_script(hwnd).followed_by(from_default())
}

/// Marks a conversion mode as read from the default input-method window.
pub open spec fn from_default() -> spec_fn(Option<u32>) -> Script<Option<(u32, Channel)>> {
    |cmode: Option<u32>|
        Script::Return(
            match cmode {
                Some(cmode) => Some((cmode, Channel::DefImeWnd)),
                None => None,
            },
        )
}

/// Whether the input method of `hwnd` is in the mode that is wanted.
pub open spec fn matching_script(hwnd: usize, mode: ImeMode) -> Script<bool> {
    Script::Ask(Call::WindowThread(hwnd), |r: Reply| matching_thread(hwnd, mode, r->Thread_0))
}

/// Looks at the keyboard layout of the window's thread.
pub open spec fn matching_thread(hwnd: usize, mode: ImeMode, thread: u32) -> Script<bool> {
    Script::Ask(
        Call::KeyboardLayout(thread),
        |r: Reply| matching_language(hwnd, mode, mode::language_of(r->Handle_0)),
    )
}

/// English wants the English keyboard. Chinese leaves every other keyboard alone, for that is
/// the user's choice, and looks at the sub-mode of a Chinese one.
pub open spec fn matching_language(hwnd: usize, mode: ImeMode, language: usize) -> Script<bool> {
    match mode {
        ImeMode::EnglishOnly => Script::Return(language == LANG_ENGLISH),
        ImeMode::ChineseOnly => if language != LANG_CHINESE {
            Script::Return(true)
        } else {
            query_script(hwnd).followed_by(judged(hwnd))
        },
    }
}

/// A conversion mode matches if its native bit is set. If none can be read, nothing can be said
/// against it.
pub open spec fn judged(hwnd: usize) -> spec_fn(Option<(u32, Channel)>) -> Script<bool> {
    |found: Option<(u32, Channel)>|
        match found {
            Some((cmode, source)) => if mode::native(cmode) {
                Script::Return(true)
            } else {
                mismatch_script(hwnd, source, cmode)
            },
            None => Script::Return(true),
        }
}

/// Reports a mismatch: describes the window, then warns, throttled.
pub open spec fn mismatch_script(hwnd: usize, source: Channel, cmode: u32) -> Script<bool> {
    Script::Ask(
        Call::DescribeWindow(hwnd),
        |r: Reply|
            clock::warn_script(Warning::NotNative { source, cmode }).followed_by(mismatched()),
    )
}

/// A reported mismatch is a mismatch, whether or not the warning was written.
pub open spec fn mismatched() -> spec_fn(bool) -> Script<bool> {
    |written: bool| Script::Return(false)
}

/// Procedure that reads the conversion mode of a window.
#[derive(Clone, Copy, Debug)]
pub enum Query {
    /// Waits for the input context of a window.
    Context(usize),
    /// Waits for the status of the window's context.
    Status(usize, usize),
    /// Waits for the release of the window's context, whose status is known.
    Release(usize, usize, Option<(u32, u32)>),
    /// Reads from the default input-method window.
    Default(GetMode),
}

/// Starts to read the conversion mode of `hwnd`.
pub fn query_current_cmode(hwnd: usize) -> (procedure: Query)
    ensures
        procedure.script() == query_script(hwnd),
{
    Query::Context(hwnd)
}

impl Query {
    /// Goes on with the default input-method window of `hwnd`.
    fn by_default(hwnd: usize) -> (next: Query)
        ensures
            next.script() == query_default(hwnd),
    {
        Query::Default(get_conversion_mode_via_defime(hwnd))
    }

    /// Goes on with what the default input-method window said so far.
    fn with_default(step: Step<GetMode, Option<u32>>) -> (next: Step<
        Query,
        Option<(u32, Channel)>,
    >)
        ensures
            next matches Step::Waits(p) ==> p.script() == step.script().followed_by(from_default()),
            next matches Step::Over(r) ==> step.script().followed_by(from_default()) == Script::Return(r),
    {
        match step {
            Step::Waits(inner) => Step::Waits(Query::Default(inner)),
            Step::Over(Some(cmode)) => Step::Over(Some((cmode, Channel::DefImeWnd))),
            Step::Over(None) => Step::Over(None),
        }
    }
}

impl Procedure for Query {
    type Output = Option<(u32, Channel)>;

    open spec fn script(&self) -> Script<Option<(u32, Channel)>> {
        match *self {
            Query::Context(hwnd) => query_script(hwnd),
            Query::Status(hwnd, himc) => query_status(hwnd, himc),
            Query::Release(hwnd, himc, status) => query_release(hwnd, himc, status),
            Query::Default(inner) => inner.script().followed_by(from_default()),
        }
    }

    proof fn lemma_asks(&self) {
        if let Query::Default(inner) = *self {
            inner.lemma_asks();
        }
    }

    fn pending(&self) -> (call: Call) {
        match *self {
            Query::Context(hwnd) => Call::GetContext(hwnd),
            Query::Status(_, himc) => Call::GetConversionStatus(himc),
            Query::Release(hwnd, himc, _) => Call::ReleaseContext(hwnd, himc),
            Query::Default(inner) => inner.pending(),
        }
    }

    fn resume(self, reply: &Reply) -> (step: Step<Query, Option<(u32, Channel)>>) {
        match (self, reply) {
            (Query::Context(hwnd), Reply::Handle(himc)) => {
                if *himc == 0 {
                    Step::Waits(Query::by_default(hwnd))
                } else {
                    Step::Waits(Query::Status(hwnd, *himc))
                }
            },
            (Query::Status(hwnd, himc), Reply::Status(status)) => Step::Waits(
                Query::Release(hwnd, himc, *status),
            ),
            (Query::Release(hwnd, _, status), _) => match status {
                Some((cmode, _)) => Step::Over(Some((cmode, Channel::Imm32))),
                None => Step::Waits(Query::by_default(hwnd)),
            },
            (Query::Default(inner), _) => {
                proof {
                    inner.lemma_asks();
                }
                Query::with_default(inner.resume(reply))
            },
            _ => Step::Waits(self),
        }
    }
}

/// Procedure that tells whether a window's input method is in the mode that is wanted.
#[derive(Clone, Copy, Debug)]
pub enum Matching {
    /// Waits for the thread of a window.
    Thread(usize, ImeMode),
    /// Waits for the keyboard layout of the window's thread.
    Layout(usize, ImeMode, u32),
    /// Reads the conversion mode of a window.
    Mode(usize, Query),
    /// Waits for the description of a window that does not match.
    Describe(usize, Channel, u32),
    /// Warns of a mismatch.
    Warn(ThrottledWarn),
}

/// Starts to find out whether the input method of `hwnd` is in the mode that is wanted.
pub fn is_ime_state_matching(hwnd: usize, ime_mode: ImeMode) -> (procedure: Matching)
    ensures
        procedure.script() == matching_script(hwnd, ime_mode),
{
    Matching::Thread(hwnd, ime_mode)
}

impl Matching {
    /// Goes on with the language of the window's keyboard layout.
    fn with_language(hwnd: usize, ime_mode: ImeMode, language: usize) -> (next: Step<
        Matching,
        bool,
    >)
        ensures
            next matches Step::Waits(p) ==> p.script() == matching_language(hwnd, ime_mode, language),
            next matches Step::Over(r) ==> matching_language(hwnd, ime_mode, language) == Script::Return(r),
    {
        match ime_mode {
            ImeMode::EnglishOnly => Step::Over(language == LANG_ENGLISH),
            ImeMode::ChineseOnly => {
                if language != LANG_CHINESE {
                    Step::Over(true)
                } else {
                    Step::Waits(Matching::Mode(hwnd, query_current_cmode(hwnd)))
                }
            },
        }
    }

    /// Goes on with what is known of the conversion mode so far.
    fn with_mode(hwnd: usize, step: Step<Query, Option<(u32, Channel)>>) -> (next: Step<
        Matching,
        bool,
    >)
        ensures
            next matches Step::Waits(p) ==> p.script() == step.script().followed_by(judged(hwnd)),
            next matches Step::Over(r) ==> step.script().followed_by(judged(hwnd)) == Script::Return(r),
    {
        match step {
            Step::Waits(inner) => Step::Waits(Matching::Mode(hwnd, inner)),
            Step::Over(Some((cmode, source))) => {
                if is_native(cmode) {
                    Step::Over(true)
                } else {
                    Step::Waits(Matching::Describe(hwnd, source, cmode))
                }
            },
            Step::Over(None) => Step::Over(true),
        }
    }

    /// Goes on with the warning.
    fn with_warning(step: Step<ThrottledWarn, bool>) -> (next: Step<Matching, bool>)
        ensures
            next matches Step::Waits(p) ==> p.script() == step.script().followed_by(mismatched()),
            next matches Step::Over(r) ==> step.script().followed_by(mismatched()) == Script::Return(r),
    {
        match step {
            Step::Waits(inner) => Step::Waits(Matching::Warn(inner)),
            Step::Over(_) => Step::Over(false),
        }
    }
}

impl Procedure for Matching {
    type Output = bool;

    open spec fn script(&self) -> Script<bool> {
        match *self {
            Matching::Thread(hwnd, mode) => matching_script(hwnd, mode),
            Matching::Layout(hwnd, mode, thread) => matching_thread(hwnd, mode, thread),
            Matching::Mode(hwnd, inner) => inner.script().followed_by(judged(hwnd)),
            Matching::Describe(hwnd, source, cmode) => mismatch_script(hwnd, source, cmode),
            Matching::Warn(inner) => inner.script().followed_by(mismatched()),
        }
    }

    proof fn lemma_asks(&self) {
        match *self {
            Matching::Mode(_, inner) => inner.lemma_asks(),
            Matching::Warn(inner) => inner.lemma_asks(),
            _ => {},
        }
    }

    fn pending(&self) -> (call: Call) {
        match *self {
            Matching::Thread(hwnd, _) => Call::WindowThread(hwnd),
            Matching::Layout(_, _, thread) => Call::KeyboardLayout(thread),
            Matching::Mode(_, inner) => inner.pending(),
            Matching::Describe(hwnd, _, _) => Call::DescribeWindow(hwnd),
            Matching::Warn(inner) => inner.pending(),
        }
    }

    fn resume(self, reply: &Reply) -> (step: Step<Matching, bool>) {
        proof {
            self.lemma_asks();
        }
        match (self, reply) {
            (Matching::Thread(hwnd, mode), Reply::Thread(thread)) => Step::Waits(
                Matching::Layout(hwnd, mode, *thread),
            ),
            (Matching::Layout(hwnd, mode, _), Reply::Handle(hkl)) => Matching::with_language(
                hwnd,
                mode,
                layout_language(*hkl),
            ),
            (Matching::Mode(hwnd, inner), _) => {
                proof {
                    inner.lemma_asks();
                }
                Matching::with_mode(hwnd, inner.resume(reply))
            },
            (Matching::Describe(_, source, cmode), _) => Matching::with_warning(
                Step::Waits(throttled_warn(Warning::NotNative { source, cmode })),
            ),
            (Matching::Warn(inner), _) => {
                proof {
                    inner.lemma_asks();
                }
                Matching::with_warning(inner.resume(reply))
            },
            _ => Step::Waits(self),
        }
    }
}

} // verus!

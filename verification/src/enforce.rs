//! Enforcement: bringing keyboard layout and conversion mode to the mode that is wanted.

use vstd::prelude::*;

use crate::call::{
    Call, Channel, Reply, KLF_ACTIVATE, KLF_ACTIVATE_EVERYWHERE, WM_INPUTLANGCHANGEREQUEST,
    WM_SETTINGCHANGE,
};
use crate::convert;
use crate::convert::{apply_ime_conversion_status, Apply};
use crate::layout;
use crate::layout::{resolve_target_hkl, verify_current_layout, LayoutCheck, Resolve, Verify};
use crate::mode::ImeMode;
use crate::script::{Procedure, Script, Step};

verus! {

/// What an enforcement came to.
#[derive(Clone, Copy, PartialEq, Eq, Structural, Debug)]
pub struct Enforcement {
    /// The channel that took the conversion mode, if one did.
    pub channel: Option<Channel>,
    /// The layout that is active afterwards.
    pub check: LayoutCheck,
}

/// How bringing a keyboard layout in by its name can fail.
#[derive(Clone, Copy, PartialEq, Eq, Structural, Debug)]
pub enum LayoutFailure {
    /// The layout could not be loaded.
    LoadFailed,
    /// The layout was loaded, but could not be activated.
    NotActivated,
}

/// The failure that the answer to a call reveals. The first activation of an enforcement has flags
/// of its own; that it fails is no failure yet, since a layout is loaded then.
pub open spec fn failure_of(call: Call, reply: Reply) -> Option<LayoutFailure> {
    match call {
        Call::LoadLayout(_, _) => if reply == Reply::Loaded(None) {
            Some(LayoutFailure::LoadFailed)
        } else {
            None
        },
        Call::ActivateLayout(_, flags) => if flags == KLF_ACTIVATE && reply == Reply::Flag(false) {
            Some(LayoutFailure::NotActivated)
        } else {
            None
        },
        _ => None,
    }
}

/// The failure that the answer to a call reveals: [`LayoutFailure::LoadFailed`] if no layout was
/// loaded, [`LayoutFailure::NotActivated`] if a loaded one could not be activated.
pub fn layout_failure(call: Call, reply: &Reply) -> (failure: Option<LayoutFailure>)
    ensures
        failure == failure_of(call, *reply),
        failure == Some(LayoutFailure::LoadFailed) <==> call is LoadLayout && *reply
            == Reply::Loaded(None),
        failure == Some(LayoutFailure::NotActivated) <==> call is ActivateLayout
            && call->ActivateLayout_1 == KLF_ACTIVATE && *reply == Reply::Flag(false),
{
    match (call, reply) {
        (Call::LoadLayout(_, _), Reply::Loaded(None)) => Some(LayoutFailure::LoadFailed),
        (Call::ActivateLayout(_, flags), Reply::Flag(false)) => {
            if flags == KLF_ACTIVATE {
                Some(LayoutFailure::NotActivated)
            } else {
                None
            }
        },
        _ => None,
    }
}

/// Enforces a mode: activates its keyboard layout, pins the conversion mode of `hwnd`, announces
/// a change of settings in any case, and looks at the layout that is active then.
pub open spec fn enforce_script(hwnd: usize, mode: ImeMode) -> Script<Enforcement> {
    layout::resolve_script(mode).followed_by(enforce_resolved(hwnd, mode))
}

/// Activates the layout that was found.
pub open spec fn enforce_resolved(hwnd: usize, mode: ImeMode) -> spec_fn(usize) -> Script<
    Enforcement,
> {
    |hkl: usize| enforce_activate(hwnd, mode, hkl)
}

/// Activates a layout for the whole process; if that fails, loads one by its name.
pub open spec fn enforce_activate(hwnd: usize, mode: ImeMode, hkl: usize) -> Script<Enforcement> {
    Script::Ask(
        Call::ActivateLayout(hkl, KLF_ACTIVATE_EVERYWHERE),
        |r: Reply|
            if r->Flag_0 {
                enforce_announce(hwnd, mode, hkl)
            } else {
                enforce_load(hwnd, mode)
            },
    )
}

/// Asks every window to change to the layout.
pub open spec fn enforce_announce(hwnd: usize, mode: ImeMode, hkl: usize) -> Script<Enforcement> {
    Script::Ask(
        Call::Broadcast { message: WM_INPUTLANGCHANGEREQUEST, value: hkl as isize },
        |r: Reply| enforce_convert(hwnd, mode),
    )
}

/// Loads the layout that is named after the mode's language.
pub open spec fn enforce_load(hwnd: usize, mode: ImeMode) -> Script<Enforcement> {
    Script::Ask(
        Call::LoadLayout(mode, KLF_ACTIVATE),
        |r: Reply| enforce_loaded(hwnd, mode, r->Loaded_0),
    )
}

/// Activates the layout that was loaded, if one was.
pub open spec fn enforce_loaded(
    hwnd: usize,
    mode: ImeMode,
    loaded: Option<usize>,
) -> Script<Enforcement> {
    match loaded {
        Some(hkl) => if hkl != 0 {
            enforce_reactivate(hwnd, mode, hkl)
        } else {
            enforce_convert(hwnd, mode)
        },
        None => enforce_convert(hwnd, mode),
    }
}

/// Activates a layout that was loaded; only if that works is it announced.
pub open spec fn enforce_reactivate(
    hwnd: usize,
    mode: ImeMode,
    hkl: usize,
) -> Script<Enforcement> {
    Script::Ask(
        Call::ActivateLayout(hkl, KLF_ACTIVATE),
        |r: Reply|
            if r->Flag_0 {
                enforce_announce(hwnd, mode, hkl)
            } else {
                enforce_convert(hwnd, mode)
            },
    )
}

/// Pins the conversion mode, whatever became of the layout.
pub open spec fn enforce_convert(hwnd: usize, mode: ImeMode) -> Script<Enforcement> {
    convert::apply_script(hwnd, mode).followed_by(enforce_converted(mode))
}

/// Announces a change of settings, whatever became of the conversion mode.
pub open spec fn enforce_converted(mode: ImeMode) -> spec_fn(Option<Channel>) -> Script<
    Enforcement,
> {
    |channel: Option<Channel>| enforce_finish(mode, channel)
}

/// Announces a change of settings, then looks at the active layout.
pub open spec fn enforce_finish(mode: ImeMode, channel: Option<Channel>) -> Script<Enforcement> {
    Script::Ask(
        Call::Broadcast { message: WM_SETTINGCHANGE, value: 0 },
        |r: Reply| layout::verify_script(mode).followed_by(enforce_verified(channel)),
    )
}

/// Ends with what was found.
pub open spec fn enforce_verified(channel: Option<Channel>) -> spec_fn(LayoutCheck) -> Script<
    Enforcement,
> {
    |check: LayoutCheck| Script::Return(Enforcement { channel, check })
}

/// Procedure that enforces a mode.
#[derive(Clone, Copy, Debug)]
pub enum Enforce {
    /// Finds the layout to activate.
    Resolve(usize, ImeMode, Resolve),
    /// Waits until the layout is active.
    Activate(usize, ImeMode, usize),
    /// Waits until the layout is announced.
    Announce(usize, ImeMode, usize),
    /// Waits until the layout named after the mode's language is loaded.
    Load(usize, ImeMode),
    /// Waits until the loaded layout is active.
    Reactivate(usize, ImeMode, usize),
    /// Pins the conversion mode.
    Convert(ImeMode, Apply),
    /// Waits until the change of settings is announced.
    Finish(ImeMode, Option<Channel>),
    /// Looks at the active layout.
    Verify(Option<Channel>, Verify),
}

/// Starts to enforce a mode on `hwnd`.
pub fn enforce_global_ime_mode(hwnd: usize, ime_mode: ImeMode) -> (procedure: Enforce)
    ensures
        procedure.script() == enforce_script(hwnd, ime_mode),
{
    Enforce::Resolve(hwnd, ime_mode, resolve_target_hkl(ime_mode))
}

impl Enforce {
    /// Goes on with the search for the layout.
    fn with_layout(hwnd: usize, mode: ImeMode, step: Step<Resolve, usize>) -> (next: Enforce)
        ensures
            next.script() == step.script().followed_by(enforce_resolved(hwnd, mode)),
    {
        match step {
            Step::Waits(inner) => Enforce::Resolve(hwnd, mode, inner),
            Step::Over(hkl) => Enforce::Activate(hwnd, mode, hkl),
        }
    }

    /// Goes on with the conversion mode of `hwnd`.
    fn convert(hwnd: usize, mode: ImeMode) -> (next: Enforce)
        ensures
            next.script() == enforce_convert(hwnd, mode),
    {
        Enforce::Convert(mode, apply_ime_conversion_status(hwnd, mode))
    }

    /// Goes on with what became of the conversion mode so far.
    fn with_conversion(mode: ImeMode, step: Step<Apply, Option<Channel>>) -> (next: Enforce)
        ensures
            next.script() == step.script().followed_by(enforce_converted(mode)),
    {
        match step {
            Step::Waits(inner) => Enforce::Convert(mode, inner),
            Step::Over(channel) => Enforce::Finish(mode, channel),
        }
    }

    /// Goes on with the look at the active layout.
    fn with_check(channel: Option<Channel>, step: Step<Verify, LayoutCheck>) -> (next: Step<
        Enforce,
        Enforcement,
    >)
        ensures
            next matches Step::Waits(p) ==> p.script() == step.script().followed_by(
                enforce_verified(channel),
            ),
            next matches Step::Over(r) ==> step.script().followed_by(enforce_verified(channel))
                == Script::Return(r),
    {
        match step {
            Step::Waits(inner) => Step::Waits(Enforce::Verify(channel, inner)),
            Step::Over(check) => Step::Over(Enforcement { channel, check }),
        }
    }
}

impl Procedure for Enforce {
    type Output = Enforcement;

    open spec fn script(&self) -> Script<Enforcement> {
        match *self {
            Enforce::Resolve(hwnd, mode, inner) => inner.script().followed_by(
                enforce_resolved(hwnd, mode),
            ),
            Enforce::Activate(hwnd, mode, hkl) => enforce_activate(hwnd, mode, hkl),
            Enforce::Announce(hwnd, mode, hkl) => enforce_announce(hwnd, mode, hkl),
            Enforce::Load(hwnd, mode) => enforce_load(hwnd, mode),
            Enforce::Reactivate(hwnd, mode, hkl) => enforce_reactivate(hwnd, mode, hkl),
            Enforce::Convert(mode, inner) => inner.script().followed_by(enforce_converted(mode)),
            Enforce::Finish(mode, channel) => enforce_finish(mode, channel),
            Enforce::Verify(channel, inner) => inner.script().followed_by(
                enforce_verified(channel),
            ),
        }
    }

    proof fn lemma_asks(&self) {
        match *self {
            Enforce::Resolve(_, _, inner) => inner.lemma_asks(),
            Enforce::Convert(_, inner) => inner.lemma_asks(),
            Enforce::Verify(_, inner) => inner.lemma_asks(),
            _ => {},
        }
    }

    fn pending(&self) -> (call: Call) {
        match *self {
            Enforce::Resolve(_, _, inner) => inner.pending(),
            Enforce::Activate(_, _, hkl) => Call::ActivateLayout(hkl, KLF_ACTIVATE_EVERYWHERE),
            Enforce::Announce(_, _, hkl) => Call::Broadcast {
                message: WM_INPUTLANGCHANGEREQUEST,
                value: #[verifier::truncate]
                (hkl as isize),
            },
            Enforce::Load(_, mode) => Call::LoadLayout(mode, KLF_ACTIVATE),
            Enforce::Reactivate(_, _, hkl) => Call::ActivateLayout(hkl, KLF_ACTIVATE),
            Enforce::Convert(_, inner) => inner.pending(),
            Enforce::Finish(_, _) => Call::Broadcast { message: WM_SETTINGCHANGE, value: 0 },
            Enforce::Verify(_, inner) => inner.pending(),
        }
    }

    fn resume(self, reply: &Reply) -> (step: Step<Enforce, Enforcement>) {
        match (self, reply) {
            (Enforce::Resolve(hwnd, mode, inner), _) => {
                proof {
                    inner.lemma_asks();
                }
                Step::Waits(Enforce::with_layout(hwnd, mode, inner.resume(reply)))
            },
            (Enforce::Activate(hwnd, mode, hkl), Reply::Flag(active)) => {
                if *active {
                    Step::Waits(Enforce::Announce(hwnd, mode, hkl))
                } else {
                    Step::Waits(Enforce::Load(hwnd, mode))
                }
            },
            (Enforce::Announce(hwnd, mode, _), _) => Step::Waits(Enforce::convert(hwnd, mode)),
            (Enforce::Load(hwnd, mode), Reply::Loaded(loaded)) => match *loaded {
                Some(hkl) => {
                    if hkl != 0 {
                        Step::Waits(Enforce::Reactivate(hwnd, mode, hkl))
                    } else {
                        Step::Waits(Enforce::convert(hwnd, mode))
                    }
                },
                None => Step::Waits(Enforce::convert(hwnd, mode)),
            },
            (Enforce::Reactivate(hwnd, mode, hkl), Reply::Flag(active)) => {
                if *active {
                    Step::Waits(Enforce::Announce(hwnd, mode, hkl))
                } else {
                    Step::Waits(Enforce::convert(hwnd, mode))
                }
            },
            (Enforce::Convert(mode, inner), _) => {
                proof {
                    inner.lemma_asks();
                }
                Step::Waits(Enforce::with_conversion(mode, inner.resume(reply)))
            },
            (Enforce::Finish(mode, channel), _) => Enforce::with_check(
                channel,
                Step::Waits(verify_current_layout(mode)),
            ),
            (Enforce::Verify(channel, inner), _) => {
                proof {
                    inner.lemma_asks();
                }
                Enforce::with_check(channel, inner.resume(reply))
            },
            _ => Step::Waits(self),
        }
    }
}

} // verus!

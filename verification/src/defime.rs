//! The default input-method window: reading and writing the conversion mode through it.
//!
//! Windows of purely text-service based programs have no input context. Their default
//! input-method window is the one channel that is left.

use vstd::prelude::*;

use crate::call::{
    Call, Reply, IMC_GETCONVERSIONMODE, IMC_SETCONVERSIONMODE, IMC_SETOPENSTATUS,
};
use crate::script::{Procedure, Script, Step};

verus! {

/// Reads the conversion mode of `hwnd` through its default input-method window; none if there
/// is no such window.
pub open spec fn get_mode_script(hwnd: usize) -> Script<Option<u32>> {
    Script::Ask(Call::DefaultImeWindow(hwnd), |r: Reply| get_mode_of(r->Handle_0))
}

/// Reads the conversion mode from the input-method window `wnd`, if it is one.
pub open spec fn get_mode_of(wnd: usize) -> Script<Option<u32>> {
    if wnd == 0 {
        Script::Return(None)
    } else {
        get_mode_send(wnd)
    }
}

/// Asks the input-method window `wnd`; the mode is the low half of its answer.
pub open spec fn get_mode_send(wnd: usize) -> Script<Option<u32>> {
    Script::Ask(
        Call::ImeControl { wnd, command: IMC_GETCONVERSIONMODE, value: 0 },
        |r: Reply| Script::Return(Some(r->Word_0 as u32)),
    )
}

/// Writes a conversion mode through the default input-method window of `hwnd`. Returns whether
/// it was accepted; without such a window it is not.
pub open spec fn set_mode_script(hwnd: usize, cmode: u32) -> Script<bool> {
    Script::Ask(Call::DefaultImeWindow(hwnd), |r: Reply| set_mode_of(r->Handle_0, cmode))
}

/// Writes a conversion mode to the input-method window `wnd`, if it is one.
pub open spec fn set_mode_of(wnd: usize, cmode: u32) -> Script<bool> {
    if wnd == 0 {
        Script::Return(false)
    } else {
        set_mode_open(wnd, cmode)
    }
}

/// Opens the input method of `wnd` first, whatever comes of it: a closed one is in its English
/// sub-mode.
pub open spec fn set_mode_open(wnd: usize, cmode: u32) -> Script<bool> {
    Script::Ask(
        Call::ImeControl { wnd, command: IMC_SETOPENSTATUS, value: 1 },
        |r: Reply| set_mode_send(wnd, cmode),
    )
}

/// Sends the conversion mode to `wnd`; any answer but zero accepts it.
pub open spec fn set_mode_send(wnd: usize, cmode: u32) -> Script<bool> {
    Script::Ask(
        Call::ImeControl { wnd, command: IMC_SETCONVERSIONMODE, value: cmode as isize },
        |r: Reply| Script::Return(r->Word_0 != 0),
    )
}

/// Procedure that reads the conversion mode through the default input-method window.
#[derive(Clone, Copy, Debug)]
pub enum GetMode {
    /// Waits for the input-method window of a window.
    Window(usize),
    /// Waits for the answer of the input-method window.
    Answer(usize),
}

/// Starts to read the conversion mode of `hwnd` through its default input-method window.
pub fn get_conversion_mode_via_defime(hwnd: usize) -> (procedure: GetMode)
    ensures
        procedure.script() == get_mode_script(hwnd),
{
    GetMode::Window(hwnd)
}

impl Procedure for GetMode {
    type Output = Option<u32>;

    open spec fn script(&self) -> Script<Option<u32>> {
        match *self {
            GetMode::Window(hwnd) => get_mode_script(hwnd),
            GetMode::Answer(wnd) => get_mode_send(wnd),
        }
    }

    proof fn lemma_asks(&self) {
    }

    fn pending(&self) -> (call: Call) {
        match *self {
            GetMode::Window(hwnd) => Call::DefaultImeWindow(hwnd),
            GetMode::Answer(wnd) => Call::ImeControl {
                wnd,
                command: IMC_GETCONVERSIONMODE,
                value: 0,
            },
        }
    }

    fn resume(self, reply: &Reply) -> (step: Step<GetMode, Option<u32>>) {
        match (self, reply) {
            (GetMode::Window(_), Reply::Handle(wnd)) => {
                if *wnd == 0 {
                    Step::Over(None)
                } else {
                    Step::Waits(GetMode::Answer(*wnd))
                }
            },
            (GetMode::Answer(_), Reply::Word(word)) => Step::Over(
                Some(
                    #[verifier::truncate]
                    (*word as u32),
                ),
            ),
            _ => Step::Waits(self),
        }
    }
}

/// Procedure that writes a conversion mode through the default input-method window.
#[derive(Clone, Copy, Debug)]
pub enum SetMode {
    /// Waits for the input-method window of a window; then comes the conversion mode.
    Window(usize, u32),
    /// Waits until the input-method window has opened its input method.
    Open(usize, u32),
    /// Waits until the input-method window has taken the conversion mode.
    Answer(usize, u32),
}

/// Starts to write a conversion mode through the default input-method window of `hwnd`.
pub fn set_conversion_mode_via_defime(hwnd: usize, new_cmode: u32) -> (procedure: SetMode)
    ensures
        procedure.script() == set_mode_script(hwnd, new_cmode),
{
    SetMode::Window(hwnd, new_cmode)
}

impl Procedure for SetMode {
    type Output = bool;

    open spec fn script(&self) -> Script<bool> {
        match *self {
            SetMode::Window(hwnd, cmode) => set_mode_script(hwnd, cmode),
            SetMode::Open(wnd, cmode) => set_mode_open(wnd, cmode),
            SetMode::Answer(wnd, cmode) => set_mode_send(wnd, cmode),
        }
    }

    proof fn lemma_asks(&self) {
    }

    fn pending(&self) -> (call: Call) {
        match *self {
            SetMode::Window(hwnd, _) => Call::DefaultImeWindow(hwnd),
            SetMode::Open(wnd, _) => Call::ImeControl {
                wnd,
                command: IMC_SETOPENSTATUS,
                value: 1,
            },
            SetMode::Answer(wnd, cmode) => Call::ImeControl {
                wnd,
                command: IMC_SETCONVERSIONMODE,
                value: #[verifier::truncate]
                (cmode as isize),
            },
        }
    }

    fn resume(self, reply: &Reply) -> (step: Step<SetMode, bool>) {
        match (self, reply) {
            (SetMode::Window(_, cmode), Reply::Handle(wnd)) => {
                if *wnd == 0 {
                    Step::Over(false)
                } else {
                    Step::Waits(SetMode::Open(*wnd, cmode))
                }
            },
            (SetMode::Open(wnd, cmode), _) => Step::Waits(SetMode::Answer(wnd, cmode)),
            (SetMode::Answer(_, _), Reply::Word(word)) => Step::Over(*word != 0),
            _ => Step::Waits(self),
        }
    }
}

} // verus!

//! The Shift fallback: a simulated tap of the Shift key, which flips a Chinese input method
//! from its English back to its Chinese sub-mode.

use vstd::prelude::*;

use crate::call::{Call, KeyInput, Reply, Warning};
use crate::clock;
use crate::clock::{throttled_warn, ThrottledWarn};
use crate::script::{Procedure, Script, Step};

verus! {

/// Virtual key of Shift.
pub const VK_SHIFT: u16 = 0x10;

/// The keys that a simulated Shift would combine with, in the order in which they are looked at.
#[derive(Clone, Copy, PartialEq, Eq, Structural, Debug)]
pub enum ModifierKey {
    /// Either Shift key.
    Shift,
    /// The left Shift key.
    LShift,
    /// The right Shift key.
    RShift,
    /// Either Control key.
    Control,
    /// The left Control key.
    LControl,
    /// The right Control key.
    RControl,
    /// Either Alt key.
    Menu,
    /// The left Alt key.
    LMenu,
    /// The right Alt key.
    RMenu,
    /// The left Windows key.
    LWin,
    /// The right Windows key.
    RWin,
}

impl ModifierKey {
    /// The virtual key code.
    pub open spec fn code(self) -> i32 {
        match self {
            ModifierKey::Shift => 0x10,
            ModifierKey::LShift => 0xA0,
            ModifierKey::RShift => 0xA1,
            ModifierKey::Control => 0x11,
            ModifierKey::LControl => 0xA2,
            ModifierKey::RControl => 0xA3,
            ModifierKey::Menu => 0x12,
            ModifierKey::LMenu => 0xA4,
            ModifierKey::RMenu => 0xA5,
            ModifierKey::LWin => 0x5B,
            ModifierKey::RWin => 0x5C,
        }
    }

    /// The key that is looked at next.
    pub open spec fn successor(self) -> Option<ModifierKey> {
        match self {
            ModifierKey::Shift => Some(ModifierKey::LShift),
            ModifierKey::LShift => Some(ModifierKey::RShift),
            ModifierKey::RShift => Some(ModifierKey::Control),
            ModifierKey::Control => Some(ModifierKey::LControl),
            ModifierKey::LControl => Some(ModifierKey::RControl),
            ModifierKey::RControl => Some(ModifierKey::Menu),
            ModifierKey::Menu => Some(ModifierKey::LMenu),
            ModifierKey::LMenu => Some(ModifierKey::RMenu),
            ModifierKey::RMenu => Some(ModifierKey::LWin),
            ModifierKey::LWin => Some(ModifierKey::RWin),
            ModifierKey::RWin => None,
        }
    }

    /// How many keys come before this one.
    pub open spec fn position(self) -> nat {
        match self {
            ModifierKey::Shift => 0,
            ModifierKey::LShift => 1,
            ModifierKey::RShift => 2,
            ModifierKey::Control => 3,
            ModifierKey::LControl => 4,
            ModifierKey::RControl => 5,
            ModifierKey::Menu => 6,
            ModifierKey::LMenu => 7,
            ModifierKey::RMenu => 8,
            ModifierKey::LWin => 9,
            ModifierKey::RWin => 10,
        }
    }

    /// The virtual key code.
    pub fn vk(self) -> (code: i32)
        ensures
            code == self.code(),
    {
        match self {
            ModifierKey::Shift => 0x10,
            ModifierKey::LShift => 0xA0,
            ModifierKey::RShift => 0xA1,
            ModifierKey::Control => 0x11,
            ModifierKey::LControl => 0xA2,
            ModifierKey::RControl => 0xA3,
            ModifierKey::Menu => 0x12,
            ModifierKey::LMenu => 0xA4,
            ModifierKey::RMenu => 0xA5,
            ModifierKey::LWin => 0x5B,
            ModifierKey::RWin => 0x5C,
        }
    }

    /// The key that is looked at next.
    pub fn next_key(self) -> (key: Option<ModifierKey>)
        ensures
            key == self.successor(),
    {
        match self {
            ModifierKey::Shift => Some(ModifierKey::LShift),
            ModifierKey::LShift => Some(ModifierKey::RShift),
            ModifierKey::RShift => Some(ModifierKey::Control),
            ModifierKey::Control => Some(ModifierKey::LControl),
            ModifierKey::LControl => Some(ModifierKey::RControl),
            ModifierKey::RControl => Some(ModifierKey::Menu),
            ModifierKey::Menu => Some(ModifierKey::LMenu),
            ModifierKey::LMenu => Some(ModifierKey::RMenu),
            ModifierKey::RMenu => Some(ModifierKey::LWin),
            ModifierKey::LWin => Some(ModifierKey::RWin),
            ModifierKey::RWin => None,
        }
    }
}

/// Whether a key state says that the key is down: its highest bit, the sign, is set.
pub open spec fn held(state: i16) -> bool {
    state < 0
}

/// Whether a key state says that the key is down: its highest bit, the sign, is set.
pub fn is_held(state: i16) -> (down: bool)
    ensures
        down == held(state),
{
    assert((state & i16::MIN != 0) == (state < 0)) by (bit_vector);
    state & i16::MIN != 0
}

/// Whether a modifier key is held: asks for one key after the other, up to the first that is.
pub open spec fn modifiers_script() -> Script<bool> {
    modifiers_from(ModifierKey::Shift)
}

/// Whether `key` or one that comes after it is held.
pub open spec fn modifiers_from(key: ModifierKey) -> Script<bool>
    decreases 10 - key.position(),
{
    Script::Ask(
        Call::KeyState(key.code()),
        |r: Reply|
            if held(r->Key_0) {
                Script::Return(true)
            } else {
                match key.successor() {
                    Some(next) => modifiers_from(next),
                    None => Script::Return(false),
                }
            },
    )
}

/// Taps Shift, unless a modifier key is held. Returns whether both events went out.
pub open spec fn tap_script() -> Script<bool> {
    modifiers_script().followed_by(tap_unless())
}

/// Warns if a modifier key is held, else taps Shift.
pub open spec fn tap_unless() -> spec_fn(bool) -> Script<bool> {
    |modifier: bool|
        if modifier {
            clock::warn_script(Warning::ModifierHeld).followed_by(not_tapped())
        } else {
            tap_send()
        }
}

/// Shift was not tapped, whether or not the warning was written.
pub open spec fn not_tapped() -> spec_fn(bool) -> Script<bool> {
    |written: bool| Script::Return(false)
}

/// Sends Shift down and Shift up.
pub open spec fn tap_send() -> Script<bool> {
    Script::Ask(
        Call::SendInput(
            KeyInput { vk: VK_SHIFT, up: false },
            KeyInput { vk: VK_SHIFT, up: true },
        ),
        |r: Reply| Script::Return(r->Injected_0 == 2),
    )
}

/// Procedure that tells whether a modifier key is held.
#[derive(Clone, Copy, Debug)]
pub struct Modifiers {
    /// The key whose state it waits for.
    pub key: ModifierKey,
}

/// Starts to find out whether a modifier key is held.
pub fn any_modifier_pressed() -> (procedure: Modifiers)
    ensures
        procedure.script() == modifiers_script(),
{
    Modifiers { key: ModifierKey::Shift }
}

impl Procedure for Modifiers {
    type Output = bool;

    open spec fn script(&self) -> Script<bool> {
        modifiers_from(self.key)
    }

    proof fn lemma_asks(&self) {
    }

    fn pending(&self) -> (call: Call) {
        Call::KeyState(self.key.vk())
    }

    fn resume(self, reply: &Reply) -> (step: Step<Modifiers, bool>) {
        match reply {
            Reply::Key(state) => {
                if is_held(*state) {
                    Step::Over(true)
                } else {
                    match self.key.next_key() {
                        Some(key) => Step::Waits(Modifiers { key }),
                        None => Step::Over(false),
                    }
                }
            },
            _ => Step::Waits(self),
        }
    }
}

/// Procedure that taps Shift.
#[derive(Clone, Copy, Debug)]
pub enum ShiftTap {
    /// Looks at the modifier keys.
    Check(Modifiers),
    /// Warns that a modifier key is held.
    Warn(ThrottledWarn),
    /// Waits until Shift is sent.
    Send,
}

/// Starts to tap Shift.
pub fn send_shift_tap() -> (procedure: ShiftTap)
    ensures
        procedure.script() == tap_script(),
{
    ShiftTap::Check(any_modifier_pressed())
}

impl ShiftTap {
    /// Goes on with what is known of the modifier keys so far.
    fn with_check(step: Step<Modifiers, bool>) -> (next: Step<ShiftTap, bool>)
        ensures
            next matches Step::Waits(p) ==> p.script() == step.script().followed_by(tap_unless()),
            next matches Step::Over(r) ==> step.script().followed_by(tap_unless())
                == Script::Return(r),
    {
        match step {
            Step::Waits(inner) => Step::Waits(ShiftTap::Check(inner)),
            Step::Over(true) => Step::Waits(
                ShiftTap::Warn(throttled_warn(Warning::ModifierHeld)),
            ),
            Step::Over(false) => Step::Waits(ShiftTap::Send),
        }
    }

    /// Goes on with the warning.
    fn with_warning(step: Step<ThrottledWarn, bool>) -> (next: Step<ShiftTap, bool>)
        ensures
            next matches Step::Waits(p) ==> p.script() == step.script().followed_by(not_tapped()),
            next matches Step::Over(r) ==> step.script().followed_by(not_tapped())
                == Script::Return(r),
    {
        match step {
            Step::Waits(inner) => Step::Waits(ShiftTap::Warn(inner)),
            Step::Over(_) => Step::Over(false),
        }
    }
}

impl Procedure for ShiftTap {
    type Output = bool;

    open spec fn script(&self) -> Script<bool> {
        match *self {
            ShiftTap::Check(inner) => inner.script().followed_by(tap_unless()),
            ShiftTap::Warn(inner) => inner.script().followed_by(not_tapped()),
            ShiftTap::Send => tap_send(),
        }
    }

    proof fn lemma_asks(&self) {
        match *self {
            ShiftTap::Check(inner) => inner.lemma_asks(),
            ShiftTap::Warn(inner) => inner.lemma_asks(),
            ShiftTap::Send => {},
        }
    }

    fn pending(&self) -> (call: Call) {
        match *self {
            ShiftTap::Check(inner) => inner.pending(),
            ShiftTap::Warn(inner) => inner.pending(),
            ShiftTap::Send => Call::SendInput(
                KeyInput { vk: VK_SHIFT, up: false },
                KeyInput { vk: VK_SHIFT, up: true },
            ),
        }
    }

    fn resume(self, reply: &Reply) -> (step: Step<ShiftTap, bool>) {
        match (self, reply) {
            (ShiftTap::Check(inner), _) => {
                proof {
                    inner.lemma_asks();
                }
                ShiftTap::with_check(inner.resume(reply))
            },
            (ShiftTap::Warn(inner), _) => {
                proof {
                    inner.lemma_asks();
                }
                ShiftTap::with_warning(inner.resume(reply))
            },
            (ShiftTap::Send, Reply::Injected(count)) => Step::Over(*count == 2),
            _ => Step::Waits(self),
        }
    }
}

} // verus!

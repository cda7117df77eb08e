//! Hot keys: switching the tool on and off, and changing the mode.

use vstd::prelude::*;

use crate::call::{Call, Reply};
use crate::mode::{Config, ImeMode};
use crate::script::{Procedure, Script, Step};

verus! {

/// The identifiers under which the hot keys are registered.
#[derive(Clone, Copy, PartialEq, Eq, Structural, Debug)]
pub struct HotkeyIds {
    /// Switches the tool on and off.
    pub toggle: i32,
    /// Changes the mode.
    pub switch_mode: i32,
}

/// What a hot key stands for.
#[derive(Clone, Copy, PartialEq, Eq, Structural, Debug)]
pub enum HotkeyAction {
    /// Switch the tool on or off.
    Toggle,
    /// Change the mode.
    SwitchMode,
}

impl HotkeyIds {
    /// What the hot key of a message stands for; only the low half of the parameter counts.
    pub open spec fn meaning(self, wparam: usize) -> Option<HotkeyAction> {
        if wparam as i32 == self.toggle {
            Some(HotkeyAction::Toggle)
        } else if wparam as i32 == self.switch_mode {
            Some(HotkeyAction::SwitchMode)
        } else {
            None
        }
    }

    /// What the hot key of a message stands for; only the low half of the parameter counts.
    pub fn action(&self, wparam: usize) -> (action: Option<HotkeyAction>)
        ensures
            action == self.meaning(wparam),
    {
        let id: i32 = #[verifier::truncate]
        (wparam as i32);
        if id == self.toggle {
            Some(HotkeyAction::Toggle)
        } else if id == self.switch_mode {
            Some(HotkeyAction::SwitchMode)
        } else {
            None
        }
    }
}

impl Config {
    /// The settings with the master switch flipped.
    pub open spec fn flipped(self) -> Config {
        Config { master_switch: !self.master_switch, ..self }
    }

    /// The settings with the other mode.
    pub open spec fn switched(self) -> Config {
        Config { ime_mode: self.ime_mode.other(), ..self }
    }

    /// The settings with the master switch flipped.
    pub fn with_master_flipped(self) -> (config: Config)
        ensures
            config == self.flipped(),
    {
        Config { master_switch: !self.master_switch, ..self }
    }

    /// The settings with the other mode.
    pub fn with_mode_switched(self) -> (config: Config)
        ensures
            config == self.switched(),
    {
        Config { ime_mode: self.ime_mode.toggled(), ..self }
    }
}

/// A hot key was pressed, as a message to `hwnd` says. Unknown ones do nothing.
pub open spec fn hotkey_script(ids: HotkeyIds, hwnd: usize, wparam: usize) -> Script<
    Option<HotkeyAction>,
> {
    match ids.meaning(wparam) {
        Some(action) => action_script(hwnd, action),
        None => Script::Return(None),
    }
}

/// Takes the settings for writing, so that nobody changes them in between.
pub open spec fn action_script(hwnd: usize, action: HotkeyAction) -> Script<Option<HotkeyAction>> {
    Script::Ask(Call::LockConfig, |r: Reply| action_store(hwnd, action, r->Settings_0))
}

/// Stores the changed settings.
pub open spec fn action_store(hwnd: usize, action: HotkeyAction, config: Config) -> Script<
    Option<HotkeyAction>,
> {
    match action {
        HotkeyAction::Toggle => toggle_store(hwnd, config.flipped()),
        HotkeyAction::SwitchMode => switch_store(hwnd, config.switched()),
    }
}

/// Stores the settings after the master switch was flipped.
pub open spec fn toggle_store(hwnd: usize, config: Config) -> Script<Option<HotkeyAction>> {
    Script::Ask(Call::StoreConfig(config), |r: Reply| toggle_icon(hwnd, config.master_switch))
}

/// Shows the new state in the tray.
pub open spec fn toggle_icon(hwnd: usize, active: bool) -> Script<Option<HotkeyAction>> {
    Script::Ask(Call::UpdateTrayIcon(hwnd, active), |r: Reply| toggle_config(hwnd, active))
}

/// Reads the settings again, for whether balloon tips are wanted.
pub open spec fn toggle_config(hwnd: usize, active: bool) -> Script<Option<HotkeyAction>> {
    Script::Ask(
        Call::ReadConfig,
        |r: Reply|
            if r->Settings_0.show_notifications {
                toggle_balloon(hwnd, active)
            } else {
                Script::Return(Some(HotkeyAction::Toggle))
            },
    )
}

/// Shows the new state in a balloon tip.
pub open spec fn toggle_balloon(hwnd: usize, active: bool) -> Script<Option<HotkeyAction>> {
    Script::Ask(
        Call::ShowBalloon(hwnd, active),
        |r: Reply| Script::Return(Some(HotkeyAction::Toggle)),
    )
}

/// Stores the settings after the mode was changed.
pub open spec fn switch_store(hwnd: usize, config: Config) -> Script<Option<HotkeyAction>> {
    Script::Ask(Call::StoreConfig(config), |r: Reply| switch_apply(hwnd, config.ime_mode))
}

/// Applies the new mode.
pub open spec fn switch_apply(hwnd: usize, mode: ImeMode) -> Script<Option<HotkeyAction>> {
    Script::Ask(
        Call::ApplySetting(hwnd, mode),
        |r: Reply| Script::Return(Some(HotkeyAction::SwitchMode)),
    )
}

/// Procedure that handles a hot key. Each step knows the window that the tool runs in.
#[derive(Clone, Copy, Debug)]
pub enum Hotkey {
    /// Waits for the settings.
    Lock(usize, HotkeyAction),
    /// Waits until the settings with the master switch flipped are stored.
    StoreToggle(usize, Config),
    /// Waits until the tray shows whether the tool is active.
    Icon(usize, bool),
    /// Waits for the settings, to see whether balloon tips are wanted.
    Notify(usize, bool),
    /// Waits until the balloon tip is shown.
    Balloon(usize, bool),
    /// Waits until the settings with the other mode are stored.
    StoreSwitch(usize, Config),
    /// Waits until the mode is applied.
    Apply(usize, ImeMode),
}

/// Starts to handle a hot key; one that is unknown is done with at once.
pub fn handle_hotkey(ids: HotkeyIds, hwnd: usize, wparam: usize) -> (step: Step<
    Hotkey,
    Option<HotkeyAction>,
>)
    ensures
        step.script() == hotkey_script(ids, hwnd, wparam),
{
    match ids.action(wparam) {
        Some(action) => Step::Waits(Hotkey::Lock(hwnd, action)),
        None => Step::Over(None),
    }
}

impl Procedure for Hotkey {
    type Output = Option<HotkeyAction>;

    open spec fn script(&self) -> Script<Option<HotkeyAction>> {
        match *self {
            Hotkey::Lock(hwnd, action) => action_script(hwnd, action),
            Hotkey::StoreToggle(hwnd, config) => toggle_store(hwnd, config),
            Hotkey::Icon(hwnd, active) => toggle_icon(hwnd, active),
            Hotkey::Notify(hwnd, active) => toggle_config(hwnd, active),
            Hotkey::Balloon(hwnd, active) => toggle_balloon(hwnd, active),
            Hotkey::StoreSwitch(hwnd, config) => switch_store(hwnd, config),
            Hotkey::Apply(hwnd, mode) => switch_apply(hwnd, mode),
        }
    }

    proof fn lemma_asks(&self) {
    }

    fn pending(&self) -> (call: Call) {
        match *self {
            Hotkey::Lock(_, _) => Call::LockConfig,
            Hotkey::StoreToggle(_, config) => Call::StoreConfig(config),
            Hotkey::Icon(hwnd, active) => Call::UpdateTrayIcon(hwnd, active),
            Hotkey::Notify(_, _) => Call::ReadConfig,
            Hotkey::Balloon(hwnd, active) => Call::ShowBalloon(hwnd, active),
            Hotkey::StoreSwitch(_, config) => Call::StoreConfig(config),
            Hotkey::Apply(hwnd, mode) => Call::ApplySetting(hwnd, mode),
        }
    }

    fn resume(self, reply: &Reply) -> (step: Step<Hotkey, Option<HotkeyAction>>) {
        match (self, reply) {
            (Hotkey::Lock(hwnd, HotkeyAction::Toggle), Reply::Settings(config)) => Step::Waits(
                Hotkey::StoreToggle(hwnd, config.with_master_flipped()),
            ),
            (Hotkey::Lock(hwnd, HotkeyAction::SwitchMode), Reply::Settings(config)) => Step::Waits(
                Hotkey::StoreSwitch(hwnd, config.with_mode_switched()),
            ),
            (Hotkey::StoreToggle(hwnd, config), _) => Step::Waits(
                Hotkey::Icon(hwnd, config.master_switch),
            ),
            (Hotkey::Icon(hwnd, active), _) => Step::Waits(Hotkey::Notify(hwnd, active)),
            (Hotkey::Notify(hwnd, active), Reply::Settings(config)) => {
                if config.show_notifications {
                    Step::Waits(Hotkey::Balloon(hwnd, active))
                } else {
                    Step::Over(Some(HotkeyAction::Toggle))
                }
            },
            (Hotkey::Balloon(_, _), _) => Step::Over(Some(HotkeyAction::Toggle)),
            (Hotkey::StoreSwitch(hwnd, config), _) => Step::Waits(
                Hotkey::Apply(hwnd, config.ime_mode),
            ),
            (Hotkey::Apply(_, _), _) => Step::Over(Some(HotkeyAction::SwitchMode)),
            _ => Step::Waits(self),
        }
    }
}

} // verus!

//! The calls that procedures make on the platform, and the answers they get.

use vstd::prelude::*;

use crate::mode::{Config, ImeMode};

verus! {

/// Message that controls an input-method window.
pub const WM_IME_CONTROL: u32 = 0x0283;

/// Sub-command of [`WM_IME_CONTROL`]: opens or closes the input method.
pub const IMC_SETOPENSTATUS: usize = 0x0003;

/// Sub-command of [`WM_IME_CONTROL`]: reads the conversion mode.
pub const IMC_GETCONVERSIONMODE: usize = 0x0005;

/// Sub-command of [`WM_IME_CONTROL`]: writes the conversion mode.
pub const IMC_SETCONVERSIONMODE: usize = 0x0006;

/// Message that asks a window to change its input language.
pub const WM_INPUTLANGCHANGEREQUEST: u32 = 0x0050;

/// Message that announces a change of system settings.
pub const WM_SETTINGCHANGE: u32 = 0x001A;

/// Pseudo window handle that addresses every top-level window.
pub const HWND_BROADCAST: usize = 0xFFFF;

/// Layout flag: activate.
pub const KLF_ACTIVATE: u32 = 0x0000_0001;

/// Layout flags: activate for the whole process and move to the head of the layout list.
pub const KLF_ACTIVATE_EVERYWHERE: u32 = 0x0000_0109;

/// Where a conversion mode was read, or through what it was written.
#[derive(Clone, Copy, PartialEq, Eq, Structural, Debug)]
pub enum Channel {
    /// The input context of the window.
    Imm32,
    /// The default input-method window.
    DefImeWnd,
    /// A simulated press of the Shift key.
    ShiftTap,
}

/// The kinds of warnings that are throttled, each on its own.
#[derive(Clone, Copy, PartialEq, Eq, Structural, Debug)]
pub enum WarningKind {
    /// The default input-method window failed.
    DefIme,
    /// The Shift key could not be simulated, or no channel is left.
    Shift,
    /// The input method is not in its Chinese sub-mode.
    Mismatch,
}

/// A throttled warning.
#[derive(Clone, Copy, PartialEq, Eq, Structural, Debug)]
pub enum Warning {
    /// A Chinese input method was found outside its Chinese sub-mode.
    NotNative {
        /// The channel that the conversion mode was read from.
        source: Channel,
        /// The conversion mode.
        cmode: u32,
    },
    /// The default input-method window refused the conversion mode.
    DefImeRejected,
    /// There is no default input-method window to ask.
    DefImeUnavailable,
    /// A modifier key is held, so Shift is not simulated.
    ModifierHeld,
    /// Shift was not simulated, or not wholly.
    ShiftNotSent,
    /// No channel worked, and the mode has no Shift fallback.
    AllChannelsFailed,
}

impl Warning {
    /// The kind under which the warning is throttled.
    pub open spec fn kind(self) -> WarningKind {
        match self {
            Warning::NotNative { .. } => WarningKind::Mismatch,
            Warning::DefImeRejected | Warning::DefImeUnavailable => WarningKind::DefIme,
            _ => WarningKind::Shift,
        }
    }
}

/// One keyboard event to inject.
#[derive(Clone, Copy, PartialEq, Eq, Structural, Debug)]
pub struct KeyInput {
    /// The virtual key.
    pub vk: u16,
    /// Whether the key goes up; otherwise it goes down.
    pub up: bool,
}

/// The foreground event that was handled last.
#[derive(Clone, Copy, PartialEq, Eq, Structural, Debug)]
pub struct LastEvent {
    /// The window of the event.
    pub hwnd: usize,
    /// The time of the event, in milliseconds since the Unix epoch.
    pub ms: u64,
}

/// A call that a procedure wants made. Handles are plain words; a null handle is zero.
#[derive(Clone, Copy, PartialEq, Eq, Structural, Debug)]
pub enum Call {
    /// Read the system clock.
    ReadClock,
    /// Read the foreground event that was handled last.
    LoadLastEvent,
    /// Replace the foreground event that was handled last.
    StoreLastEvent(LastEvent),
    /// Read when a kind of warning was last written.
    LoadStamp(WarningKind),
    /// Replace that time by `new` if it still is `old`, atomically.
    ExchangeStamp {
        /// The kind of warning.
        kind: WarningKind,
        /// The time that must still be stored.
        old: u64,
        /// The time to store.
        new: u64,
    },
    /// Describe a window for a warning that may follow.
    DescribeWindow(usize),
    /// Write a warning to the log.
    WriteWarning(Warning),
    /// Read the settings.
    ReadConfig,
    /// Take the settings for writing and read them.
    LockConfig,
    /// Replace the settings that were taken, save them and give them back.
    StoreConfig(Config),
    /// Go on in the background, after so many milliseconds.
    Settle(u64),
    /// `GetForegroundWindow`.
    ForegroundWindow,
    /// `GetWindowThreadProcessId`: the thread of a window.
    WindowThread(usize),
    /// `GetKeyboardLayout` of a thread.
    KeyboardLayout(u32),
    /// `ImmGetContext` of a window.
    GetContext(usize),
    /// `ImmGetConversionStatus` of a context.
    GetConversionStatus(usize),
    /// `ImmSetConversionStatus`: context, conversion mode and sentence mode.
    SetConversionStatus(usize, u32, u32),
    /// `ImmReleaseContext`: window and context.
    ReleaseContext(usize, usize),
    /// `ImmGetDefaultIMEWnd` of a window.
    DefaultImeWindow(usize),
    /// `SendMessageW` of [`WM_IME_CONTROL`].
    ImeControl {
        /// The input-method window.
        wnd: usize,
        /// The sub-command.
        command: usize,
        /// Its argument.
        value: isize,
    },
    /// `GetAsyncKeyState` of a virtual key.
    KeyState(i32),
    /// `SendInput` of two keyboard events.
    SendInput(KeyInput, KeyInput),
    /// `GetKeyboardLayoutList` without a buffer: the number of layouts.
    LayoutCount,
    /// `GetKeyboardLayoutList` with a buffer of so many entries.
    LayoutList(usize),
    /// `ActivateKeyboardLayout`: layout and flags.
    ActivateLayout(usize, u32),
    /// `LoadKeyboardLayoutW` of the layout named after the mode's language, with flags.
    LoadLayout(ImeMode, u32),
    /// `PostMessageW` to every top-level window.
    Broadcast {
        /// The message.
        message: u32,
        /// Its second parameter; the first is zero.
        value: isize,
    },
    /// Show in the tray whether the tool is active.
    UpdateTrayIcon(usize, bool),
    /// Show the balloon tip that says whether the tool is active.
    ShowBalloon(usize, bool),
    /// Apply a mode to the window that has the focus.
    ApplySetting(usize, ImeMode),
}

/// The answer to a call.
#[derive(Debug)]
pub enum Reply {
    /// The call has no answer, or none that matters.
    Done,
    /// Milliseconds since the Unix epoch, or none if the clock stands before it.
    Clock(Option<u128>),
    /// The foreground event that was handled last.
    Event(LastEvent),
    /// A stored time.
    Stamp(u64),
    /// The settings.
    Settings(Config),
    /// A handle.
    Handle(usize),
    /// A thread identifier.
    Thread(u32),
    /// Conversion mode and sentence mode, or none if they could not be read.
    Status(Option<(u32, u32)>),
    /// Whether the call succeeded.
    Flag(bool),
    /// The result of a message.
    Word(isize),
    /// The state of a key.
    Key(i16),
    /// A number of injected events.
    Injected(u32),
    /// A number of layouts.
    Total(i32),
    /// How many layouts were stored, and the buffer.
    Layouts(i32, Vec<usize>),
    /// The layout that was loaded, if it was.
    Loaded(Option<usize>),
}

impl Call {
    /// Whether `reply` is an answer to this call.
    pub open spec fn takes(self, reply: Reply) -> bool {
        match self {
            Call::ReadClock => reply is Clock,
            Call::LoadLastEvent => reply is Event,
            Call::LoadStamp(_) => reply is Stamp,
            Call::ExchangeStamp { .. } => reply is Flag,
            Call::ReadConfig | Call::LockConfig => reply is Settings,
            Call::ForegroundWindow | Call::KeyboardLayout(_) | Call::GetContext(_)
            | Call::DefaultImeWindow(_) => reply is Handle,
            Call::WindowThread(_) => reply is Thread,
            Call::GetConversionStatus(_) => reply is Status,
            Call::SetConversionStatus(_, _, _) | Call::ActivateLayout(_, _) => reply is Flag,
            Call::ImeControl { .. } => reply is Word,
            Call::KeyState(_) => reply is Key,
            Call::SendInput(_, _) => reply is Injected,
            Call::LayoutCount => reply is Total,
            Call::LayoutList(_) => reply is Layouts,
            Call::LoadLayout(_, _) => reply is Loaded,
            _ => reply is Done,
        }
    }

    /// Whether the call alters the input state that the user works with: the conversion mode,
    /// the open status, the keyboard layout or the keyboard itself, or tells windows to.
    pub open spec fn alters_input(self) -> bool {
        match self {
            Call::SetConversionStatus(_, _, _)
            | Call::SendInput(_, _)
            | Call::ActivateLayout(_, _)
            | Call::LoadLayout(_, _)
            | Call::Broadcast { .. } => true,
            Call::ImeControl { command, .. } => command != IMC_GETCONVERSIONMODE,
            _ => false,
        }
    }

    /// Whether `reply` is an answer to this call.
    pub fn accepts(&self, reply: &Reply) -> (fits: bool)
        ensures
            fits == self.takes(*reply),
    {
        match self {
            Call::ReadClock => matches!(reply, Reply::Clock(_)),
            Call::LoadLastEvent => matches!(reply, Reply::Event(_)),
            Call::LoadStamp(_) => matches!(reply, Reply::Stamp(_)),
            Call::ExchangeStamp { .. } => matches!(reply, Reply::Flag(_)),
            Call::ReadConfig | Call::LockConfig => matches!(reply, Reply::Settings(_)),
            Call::ForegroundWindow | Call::KeyboardLayout(_) | Call::GetContext(_)
            | Call::DefaultImeWindow(_) => matches!(reply, Reply::Handle(_)),
            Call::WindowThread(_) => matches!(reply, Reply::Thread(_)),
            Call::GetConversionStatus(_) => matches!(reply, Reply::Status(_)),
            Call::SetConversionStatus(_, _, _) | Call::ActivateLayout(_, _) => matches!(
                reply,
                Reply::Flag(_)
            ),
            Call::ImeControl { .. } => matches!(reply, Reply::Word(_)),
            Call::KeyState(_) => matches!(reply, Reply::Key(_)),
            Call::SendInput(_, _) => matches!(reply, Reply::Injected(_)),
            Call::LayoutCount => matches!(reply, Reply::Total(_)),
            Call::LayoutList(_) => matches!(reply, Reply::Layouts(_, _)),
            Call::LoadLayout(_, _) => matches!(reply, Reply::Loaded(_)),
            _ => matches!(reply, Reply::Done),
        }
    }
}

} // verus!

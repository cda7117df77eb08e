use ime_lock::call::{
    Call, Channel, KeyInput, LastEvent, Reply, Warning, WarningKind, HWND_BROADCAST,
    IMC_GETCONVERSIONMODE, IMC_SETCONVERSIONMODE, IMC_SETOPENSTATUS, KLF_ACTIVATE,
    KLF_ACTIVATE_EVERYWHERE, WM_IME_CONTROL, WM_INPUTLANGCHANGEREQUEST, WM_SETTINGCHANGE,
};
use ime_lock::clock::throttled_warn;
use ime_lock::convert::apply_ime_conversion_status;
use ime_lock::defime::{get_conversion_mode_via_defime, set_conversion_mode_via_defime};
use ime_lock::detect::{is_ime_state_matching, query_current_cmode};
use ime_lock::enforce::{
    enforce_global_ime_mode, layout_failure, Enforcement, LayoutFailure,
};
use ime_lock::hotkey::{handle_hotkey, HotkeyAction, HotkeyIds};
use ime_lock::layout::{resolve_target_hkl, verify_current_layout, LayoutCheck};
use ime_lock::mode::{Config, ImeMode};
use ime_lock::script::{Procedure, Step};
use ime_lock::shift::{any_modifier_pressed, send_shift_tap};
use ime_lock::watch::{event_hook_callback, handle_ime_check_timer, Outcome};

const CHINESE: ImeMode = ImeMode::ChineseOnly;
const ENGLISH: ImeMode = ImeMode::EnglishOnly;
const HWND: usize = 0x1234;
const HIMC: usize = 0xC0DE;
const IME_WND: usize = 0x77;

/// A desktop to talk to.
struct Desktop {
    clock: Option<u128>,
    last: LastEvent,
    stamps: [u64; 3],
    claim: bool,
    config: Config,
    foreground: usize,
    layout: usize,
    own_layout: usize,
    context: usize,
    status: Option<(u32, u32)>,
    set_status: bool,
    ime_wnd: usize,
    mode_word: isize,
    set_word: isize,
    key_down: i32,
    injected: u32,
    layouts: Vec<usize>,
    activate: bool,
    load: Option<usize>,
    reactivate: bool,
    log: Vec<Call>,
    failures: Vec<LayoutFailure>,
}

fn desktop() -> Desktop {
    Desktop {
        clock: Some(1_000_000),
        last: LastEvent { hwnd: 0, ms: 0 },
        stamps: [0; 3],
        claim: true,
        config: Config { master_switch: true, ime_mode: CHINESE, show_notifications: true },
        foreground: HWND,
        layout: 0x0804_0804,
        own_layout: 0x0804_0804,
        context: HIMC,
        status: Some((0x400, 8)),
        set_status: true,
        ime_wnd: IME_WND,
        mode_word: 0x400,
        set_word: 1,
        key_down: -1,
        injected: 2,
        layouts: vec![0x0409_0409, 0x0804_0804],
        activate: true,
        load: Some(0xF00D_0804),
        reactivate: true,
        log: vec![],
        failures: vec![],
    }
}

fn slot(kind: WarningKind) -> usize {
    match kind {
        WarningKind::DefIme => 0,
        WarningKind::Shift => 1,
        WarningKind::Mismatch => 2,
    }
}

impl Desktop {
    fn answer(&mut self, call: Call) -> Reply {
        self.log.push(call);
        match call {
            Call::ReadClock => Reply::Clock(self.clock),
            Call::LoadLastEvent => Reply::Event(self.last),
            Call::StoreLastEvent(event) => {
                self.last = event;
                Reply::Done
            }
            Call::LoadStamp(kind) => Reply::Stamp(self.stamps[slot(kind)]),
            Call::ExchangeStamp { kind, old, new } => {
                let won = self.claim && self.stamps[slot(kind)] == old;
                if won {
                    self.stamps[slot(kind)] = new;
                }
                Reply::Flag(won)
            }
            Call::ReadConfig | Call::LockConfig => Reply::Settings(self.config),
            Call::StoreConfig(config) => {
                self.config = config;
                Reply::Done
            }
            Call::ForegroundWindow => Reply::Handle(self.foreground),
            Call::WindowThread(_) => Reply::Thread(42),
            Call::KeyboardLayout(0) => Reply::Handle(self.own_layout),
            Call::KeyboardLayout(_) => Reply::Handle(self.layout),
            Call::GetContext(_) => Reply::Handle(self.context),
            Call::GetConversionStatus(_) => Reply::Status(self.status),
            Call::SetConversionStatus(_, _, _) => Reply::Flag(self.set_status),
            Call::DefaultImeWindow(_) => Reply::Handle(self.ime_wnd),
            Call::ImeControl { command, .. } => {
                if command == IMC_GETCONVERSIONMODE {
                    Reply::Word(self.mode_word)
                } else {
                    Reply::Word(self.set_word)
                }
            }
            Call::KeyState(vk) => Reply::Key(if vk == self.key_down { i16::MIN } else { 1 }),
            Call::SendInput(_, _) => Reply::Injected(self.injected),
            Call::LayoutCount => Reply::Total(self.layouts.len() as i32),
            Call::LayoutList(n) => Reply::Layouts(n as i32, self.layouts.clone()),
            Call::ActivateLayout(_, flags) => {
                Reply::Flag(if flags == KLF_ACTIVATE { self.reactivate } else { self.activate })
            }
            Call::LoadLayout(_, _) => Reply::Loaded(self.load),
            _ => Reply::Done,
        }
    }

    fn drive<P: Procedure>(&mut self, procedure: P) -> P::Output {
        let mut waiting = procedure;
        loop {
            let call = waiting.pending();
            let reply = self.answer(call);
            assert!(call.accepts(&reply));
            self.failures.extend(layout_failure(call, &reply));
            match waiting.resume(&reply) {
                Step::Waits(next) => waiting = next,
                Step::Over(result) => return result,
            }
        }
    }

    fn warnings(&self) -> Vec<Warning> {
        let mut found = vec![];
        for call in &self.log {
            if let Call::WriteWarning(warning) = call {
                found.push(*warning);
            }
        }
        found
    }
}

fn get_mode_call() -> Call {
    Call::ImeControl { wnd: IME_WND, command: IMC_GETCONVERSIONMODE, value: 0 }
}

fn open_call() -> Call {
    Call::ImeControl { wnd: IME_WND, command: IMC_SETOPENSTATUS, value: 1 }
}

fn set_mode_call(value: isize) -> Call {
    Call::ImeControl { wnd: IME_WND, command: IMC_SETCONVERSIONMODE, value }
}

fn shift_call() -> Call {
    Call::SendInput(KeyInput { vk: 0x10, up: false }, KeyInput { vk: 0x10, up: true })
}

fn warn_calls(warning: Warning, kind: WarningKind) -> Vec<Call> {
    vec![
        Call::ReadClock,
        Call::LoadStamp(kind),
        Call::ExchangeStamp { kind, old: 0, new: 1_000_000 },
        Call::WriteWarning(warning),
    ]
}

fn settings_change() -> Call {
    Call::Broadcast { message: WM_SETTINGCHANGE, value: 0 }
}

#[test]
fn constants_of_the_platform() {
    assert_eq!(WM_IME_CONTROL, 0x0283);
    assert_eq!(IMC_SETOPENSTATUS, 3);
    assert_eq!(IMC_GETCONVERSIONMODE, 5);
    assert_eq!(IMC_SETCONVERSIONMODE, 6);
    assert_eq!(WM_INPUTLANGCHANGEREQUEST, 80);
    assert_eq!(WM_SETTINGCHANGE, 26);
    assert_eq!(HWND_BROADCAST, 65535);
    assert_eq!(KLF_ACTIVATE, 1);
    assert_eq!(KLF_ACTIVATE_EVERYWHERE, 1 | 256 | 8);
}

#[test]
fn warning_is_written_when_due() {
    let mut d = desktop();
    assert!(d.drive(throttled_warn(Warning::ModifierHeld)));
    assert_eq!(d.log, warn_calls(Warning::ModifierHeld, WarningKind::Shift));
    assert_eq!(d.stamps, [0, 1_000_000, 0]);
}

#[test]
fn warning_is_held_back_when_early() {
    let mut d = desktop();
    d.stamps = [970_001; 3];
    assert!(!d.drive(throttled_warn(Warning::DefImeRejected)));
    assert_eq!(d.log, vec![Call::ReadClock, Call::LoadStamp(WarningKind::DefIme)]);
    d.stamps = [970_000; 3];
    assert!(d.drive(throttled_warn(Warning::DefImeRejected)));
}

#[test]
fn warning_is_dropped_when_the_slot_is_lost() {
    let mut d = desktop();
    d.claim = false;
    assert!(!d.drive(throttled_warn(Warning::AllChannelsFailed)));
    assert_eq!(d.warnings(), vec![]);
    assert_eq!(d.log.len(), 3);
}

#[test]
fn one_of_two_rival_warnings_is_written() {
    let mut d = desktop();
    let mut rivals = vec![
        throttled_warn(Warning::DefImeRejected),
        throttled_warn(Warning::DefImeUnavailable),
    ];
    let mut written = vec![];
    while !rivals.is_empty() {
        let mut waiting = vec![];
        for rival in rivals {
            let reply = d.answer(rival.pending());
            match rival.resume(&reply) {
                Step::Waits(next) => waiting.push(next),
                Step::Over(result) => written.push(result),
            }
        }
        rivals = waiting;
    }
    assert_eq!(written, vec![false, true]);
    assert_eq!(d.warnings(), vec![Warning::DefImeRejected]);
    let claims = d.log.iter().filter(|c| matches!(c, Call::ExchangeStamp { .. })).count();
    assert_eq!(claims, 2);
    assert_eq!(d.stamps, [1_000_000, 0, 0]);
}

#[test]
fn slot_goes_to_the_first_claim_whatever_the_times() {
    let late = throttled_warn(Warning::DefImeRejected);
    let early = throttled_warn(Warning::DefImeUnavailable);
    let mut d = desktop();
    let mut waiting = vec![];
    for (rival, ms) in [(late, 1_000_500u128), (early, 1_000_000)] {
        d.clock = Some(ms);
        let mut rival = rival;
        // The clock, then the stamp: both find the same one.
        for _ in 0..2 {
            match rival.resume(&d.answer(rival.pending())) {
                Step::Waits(next) => rival = next,
                Step::Over(_) => panic!("a warning is due"),
            }
        }
        waiting.push(rival);
    }
    let mut written = vec![];
    for rival in waiting {
        written.push(d.drive(rival));
    }
    assert_eq!(written, vec![true, false]);
    assert_eq!(d.warnings(), vec![Warning::DefImeRejected]);
    assert_eq!(d.stamps, [1_000_500, 0, 0]);
}

#[test]
fn warnings_of_a_kind_are_spaced() {
    let mut d = desktop();
    let mut times = vec![];
    for ms in (1_000_000u128..1_100_000).step_by(1_500) {
        d.clock = Some(ms);
        if d.drive(throttled_warn(Warning::AllChannelsFailed)) {
            times.push(ms);
        }
    }
    assert_eq!(times, vec![1_000_000, 1_030_000, 1_060_000, 1_090_000]);
}

#[test]
fn burst_of_events_is_handled_once() {
    let mut d = desktop();
    d.config.master_switch = false;
    let mut handled = vec![];
    for ms in (1_000_000u128..1_001_200).step_by(100) {
        d.clock = Some(ms);
        if d.drive(event_hook_callback(HWND)) != Outcome::Debounced {
            handled.push(ms);
        }
    }
    assert_eq!(handled, vec![1_000_000, 1_000_500, 1_001_000]);
}

#[test]
fn mode_through_the_default_window() {
    let mut d = desktop();
    d.mode_word = -1;
    assert_eq!(d.drive(get_conversion_mode_via_defime(HWND)), Some(u32::MAX));
    assert_eq!(d.log, vec![Call::DefaultImeWindow(HWND), get_mode_call()]);
    let mut d = desktop();
    d.ime_wnd = 0;
    assert_eq!(d.drive(get_conversion_mode_via_defime(HWND)), None);
    assert_eq!(d.log, vec![Call::DefaultImeWindow(HWND)]);
}

#[test]
fn mode_is_written_through_the_default_window() {
    let mut d = desktop();
    assert!(d.drive(set_conversion_mode_via_defime(HWND, 0x401)));
    assert_eq!(
        d.log,
        vec![Call::DefaultImeWindow(HWND), open_call(), set_mode_call(0x401)]
    );
    d.set_word = 0;
    assert!(!d.drive(set_conversion_mode_via_defime(HWND, 0x401)));
    d.ime_wnd = 0;
    assert!(!d.drive(set_conversion_mode_via_defime(HWND, 0x401)));
}

#[test]
fn query_prefers_the_context() {
    let mut d = desktop();
    assert_eq!(d.drive(query_current_cmode(HWND)), Some((0x400, Channel::Imm32)));
    assert_eq!(
        d.log,
        vec![
            Call::GetContext(HWND),
            Call::GetConversionStatus(HIMC),
            Call::ReleaseContext(HWND, HIMC)
        ]
    );
}

#[test]
fn query_falls_back_to_the_default_window() {
    let mut d = desktop();
    d.status = None;
    d.mode_word = 9;
    assert_eq!(d.drive(query_current_cmode(HWND)), Some((9, Channel::DefImeWnd)));
    assert_eq!(d.log[2], Call::ReleaseContext(HWND, HIMC));
    assert_eq!(d.log[3], Call::DefaultImeWindow(HWND));
    let mut d = desktop();
    d.context = 0;
    d.ime_wnd = 0;
    assert_eq!(d.drive(query_current_cmode(HWND)), None);
    assert_eq!(d.log, vec![Call::GetContext(HWND), Call::DefaultImeWindow(HWND)]);
}

#[test]
fn english_wants_the_english_keyboard() {
    let mut d = desktop();
    assert!(!d.drive(is_ime_state_matching(HWND, ENGLISH)));
    d.layout = 0x0409_0409;
    assert!(d.drive(is_ime_state_matching(HWND, ENGLISH)));
    assert_eq!(d.log[..2], [Call::WindowThread(HWND), Call::KeyboardLayout(42)]);
    assert_eq!(d.log.len(), 4);
}

#[test]
fn chinese_leaves_other_keyboards_alone() {
    let mut d = desktop();
    d.layout = 0x0409_0409;
    assert!(d.drive(is_ime_state_matching(HWND, CHINESE)));
    assert_eq!(d.log, vec![Call::WindowThread(HWND), Call::KeyboardLayout(42)]);
}

#[test]
fn chinese_wants_the_native_bit() {
    let mut d = desktop();
    d.status = Some((0x401, 0));
    assert!(d.drive(is_ime_state_matching(HWND, CHINESE)));
    let mut d = desktop();
    assert!(!d.drive(is_ime_state_matching(HWND, CHINESE)));
    let warning = Warning::NotNative { source: Channel::Imm32, cmode: 0x400 };
    assert_eq!(d.log[5], Call::DescribeWindow(HWND));
    assert_eq!(d.log[6..], warn_calls(warning, WarningKind::Mismatch)[..]);
}

#[test]
fn unreadable_mode_matches() {
    let mut d = desktop();
    d.context = 0;
    d.ime_wnd = 0;
    assert!(d.drive(is_ime_state_matching(HWND, CHINESE)));
}

#[test]
fn pinned_status_matches_when_read_back() {
    let mut d = desktop();
    assert!(!d.drive(is_ime_state_matching(HWND, CHINESE)));
    assert_eq!(d.drive(apply_ime_conversion_status(HWND, CHINESE)), Some(Channel::Imm32));
    let mut written = None;
    for call in &d.log {
        if let Call::SetConversionStatus(_, cmode, smode) = call {
            written = Some((*cmode, *smode));
        }
    }
    d.status = written;
    assert!(d.drive(is_ime_state_matching(HWND, CHINESE)));
}

#[test]
fn modifier_keys_are_asked_up_to_the_first_that_is_held() {
    let mut d = desktop();
    d.key_down = 0x11;
    assert!(d.drive(any_modifier_pressed()));
    assert_eq!(
        d.log,
        vec![
            Call::KeyState(0x10),
            Call::KeyState(0xA0),
            Call::KeyState(0xA1),
            Call::KeyState(0x11)
        ]
    );
    let mut d = desktop();
    assert!(!d.drive(any_modifier_pressed()));
    assert_eq!(d.log.len(), 11);
}

#[test]
fn shift_is_tapped_when_no_modifier_is_held() {
    let mut d = desktop();
    assert!(d.drive(send_shift_tap()));
    assert_eq!(d.log[11..], [shift_call()]);
    d.injected = 1;
    assert!(!d.drive(send_shift_tap()));
}

#[test]
fn shift_is_not_tapped_when_a_modifier_is_held() {
    let mut d = desktop();
    d.key_down = 0x5C;
    assert!(!d.drive(send_shift_tap()));
    assert!(!d.log.contains(&shift_call()));
    assert_eq!(d.warnings(), vec![Warning::ModifierHeld]);
}

#[test]
fn context_takes_the_mode_first() {
    let mut d = desktop();
    assert_eq!(d.drive(apply_ime_conversion_status(HWND, CHINESE)), Some(Channel::Imm32));
    assert_eq!(
        d.log,
        vec![
            Call::GetContext(HWND),
            Call::GetConversionStatus(HIMC),
            Call::SetConversionStatus(HIMC, 0x401, 8),
            Call::ReleaseContext(HWND, HIMC)
        ]
    );
    let mut d = desktop();
    d.status = Some((0x401, 8));
    assert_eq!(d.drive(apply_ime_conversion_status(HWND, ENGLISH)), Some(Channel::Imm32));
    assert_eq!(d.log[2], Call::SetConversionStatus(HIMC, 0x400, 8));
}

#[test]
fn default_window_takes_the_mode_second() {
    let mut d = desktop();
    d.set_status = false;
    d.mode_word = 0x10;
    assert_eq!(d.drive(apply_ime_conversion_status(HWND, CHINESE)), Some(Channel::DefImeWnd));
    assert_eq!(
        d.log[3..],
        [
            Call::ReleaseContext(HWND, HIMC),
            Call::DefaultImeWindow(HWND),
            get_mode_call(),
            Call::DefaultImeWindow(HWND),
            open_call(),
            set_mode_call(0x11)
        ]
    );
}

#[test]
fn shift_is_the_last_resort_for_chinese() {
    let mut d = desktop();
    d.context = 0;
    d.set_word = 0;
    assert_eq!(d.drive(apply_ime_conversion_status(HWND, CHINESE)), Some(Channel::ShiftTap));
    assert_eq!(d.warnings(), vec![Warning::DefImeRejected]);
    assert_eq!(d.log.last(), Some(&shift_call()));
    assert_eq!(d.log.iter().filter(|c| **c == shift_call()).count(), 1);
    let asked = d.log.iter().filter(|c| matches!(c, Call::KeyState(_))).count();
    assert_eq!(asked, 11);
}

#[test]
fn chinese_gives_up_when_a_modifier_is_held() {
    let mut d = desktop();
    d.context = 0;
    d.ime_wnd = 0;
    d.key_down = 0x10;
    assert_eq!(d.drive(apply_ime_conversion_status(HWND, CHINESE)), None);
    // The second Shift warning comes right after the first, and is held back.
    assert_eq!(d.warnings(), vec![Warning::DefImeUnavailable, Warning::ModifierHeld]);
    assert!(!d.log.contains(&shift_call()));
}

#[test]
fn chinese_gives_up_when_shift_is_not_sent() {
    let mut d = desktop();
    d.context = 0;
    d.ime_wnd = 0;
    d.injected = 0;
    assert_eq!(d.drive(apply_ime_conversion_status(HWND, CHINESE)), None);
    assert_eq!(d.warnings(), vec![Warning::DefImeUnavailable, Warning::ShiftNotSent]);
}

#[test]
fn english_has_no_shift_fallback() {
    let mut d = desktop();
    d.context = 0;
    d.set_word = 0;
    assert_eq!(d.drive(apply_ime_conversion_status(HWND, ENGLISH)), None);
    assert_eq!(d.warnings(), vec![Warning::DefImeRejected, Warning::AllChannelsFailed]);
    assert!(!d.log.contains(&shift_call()));
    assert!(!d.log.iter().any(|c| matches!(c, Call::KeyState(_))));
}

#[test]
fn layout_is_resolved_from_the_installed_ones() {
    let mut d = desktop();
    assert_eq!(d.drive(resolve_target_hkl(CHINESE)), 0x0804_0804);
    assert_eq!(d.log, vec![Call::LayoutCount, Call::LayoutList(2)]);
    d.layouts = vec![];
    assert_eq!(d.drive(resolve_target_hkl(ENGLISH)), 0x0409);
    assert_eq!(d.log.len(), 3);
}

#[test]
fn layout_is_verified() {
    let mut d = desktop();
    d.own_layout = 0xE001_0409;
    let check = d.drive(verify_current_layout(CHINESE));
    assert_eq!(check, LayoutCheck { hkl: 0xE001_0409, current: 0x0409, target: 0x0804 });
    assert!(!check.is_consistent());
    assert_eq!(d.log, vec![Call::KeyboardLayout(0)]);
}

#[test]
fn enforcement_activates_announces_and_pins() {
    let mut d = desktop();
    let done = d.drive(enforce_global_ime_mode(HWND, CHINESE));
    assert_eq!(
        done,
        Enforcement {
            channel: Some(Channel::Imm32),
            check: LayoutCheck { hkl: 0x0804_0804, current: 0x0804, target: 0x0804 },
        }
    );
    assert_eq!(
        d.log,
        vec![
            Call::LayoutCount,
            Call::LayoutList(2),
            Call::ActivateLayout(0x0804_0804, KLF_ACTIVATE_EVERYWHERE),
            Call::Broadcast { message: WM_INPUTLANGCHANGEREQUEST, value: 0x0804_0804 },
            Call::GetContext(HWND),
            Call::GetConversionStatus(HIMC),
            Call::SetConversionStatus(HIMC, 0x401, 8),
            Call::ReleaseContext(HWND, HIMC),
            settings_change(),
            Call::KeyboardLayout(0)
        ]
    );
}

#[test]
fn enforcement_loads_a_layout_that_cannot_be_activated() {
    let mut d = desktop();
    d.activate = false;
    d.drive(enforce_global_ime_mode(HWND, CHINESE));
    assert_eq!(
        d.log[2..7],
        [
            Call::ActivateLayout(0x0804_0804, KLF_ACTIVATE_EVERYWHERE),
            Call::LoadLayout(CHINESE, KLF_ACTIVATE),
            Call::ActivateLayout(0xF00D_0804, KLF_ACTIVATE),
            Call::Broadcast { message: WM_INPUTLANGCHANGEREQUEST, value: 0xF00D_0804 },
            Call::GetContext(HWND)
        ]
    );
    assert_eq!(d.failures, vec![]);
}

#[test]
fn layout_failures_are_told_apart() {
    let load = Call::LoadLayout(CHINESE, KLF_ACTIVATE);
    assert_eq!(layout_failure(load, &Reply::Loaded(None)), Some(LayoutFailure::LoadFailed));
    assert_eq!(layout_failure(load, &Reply::Loaded(Some(0))), None);
    let again = Call::ActivateLayout(7, KLF_ACTIVATE);
    assert_eq!(layout_failure(again, &Reply::Flag(false)), Some(LayoutFailure::NotActivated));
    assert_eq!(layout_failure(again, &Reply::Flag(true)), None);
    let first = Call::ActivateLayout(7, KLF_ACTIVATE_EVERYWHERE);
    assert_eq!(layout_failure(first, &Reply::Flag(false)), None);
    let other = Call::SetConversionStatus(7, 1, 0);
    assert_eq!(layout_failure(other, &Reply::Flag(false)), None);
}

#[test]
fn enforcement_goes_on_without_a_layout() {
    for (load, reactivate, calls, failures) in [
        (None, true, 4usize, vec![LayoutFailure::LoadFailed]),
        (Some(0), true, 4, vec![]),
        (Some(0xF00D_0804), false, 5, vec![LayoutFailure::NotActivated]),
    ] {
        let mut d = desktop();
        d.activate = false;
        d.load = load;
        d.reactivate = reactivate;
        let done = d.drive(enforce_global_ime_mode(HWND, CHINESE));
        assert_eq!(done.channel, Some(Channel::Imm32));
        assert_eq!(d.failures, failures);
        assert_eq!(d.log[calls], Call::GetContext(HWND));
        let broadcasts = d.log.iter().filter(|c| matches!(c, Call::Broadcast { .. })).count();
        assert_eq!(broadcasts, 1);
        assert_eq!(d.log[d.log.len() - 2], settings_change());
    }
}

#[test]
fn enforcement_announces_the_settings_even_if_all_fails() {
    let mut d = desktop();
    d.layouts = vec![];
    d.activate = false;
    d.load = None;
    d.context = 0;
    d.ime_wnd = 0;
    d.injected = 0;
    let done = d.drive(enforce_global_ime_mode(HWND, CHINESE));
    assert_eq!(done.channel, None);
    assert_eq!(d.log.iter().filter(|c| **c == settings_change()).count(), 1);
    assert_eq!(d.log[d.log.len() - 2], settings_change());
}

#[test]
fn contexts_are_released_in_every_case() {
    for status in [None, Some((0u32, 0u32))] {
        for set_status in [false, true] {
            let mut d = desktop();
            d.status = status;
            d.set_status = set_status;
            d.drive(handle_ime_check_timer());
            let taken = d.log.iter().filter(|c| matches!(c, Call::GetContext(_))).count();
            let released =
                d.log.iter().filter(|c| **c == Call::ReleaseContext(HWND, HIMC)).count();
            assert_eq!(taken, released);
            assert!(taken > 0);
        }
    }
}

#[test]
fn timer_is_idle_when_switched_off() {
    let mut d = desktop();
    d.config.master_switch = false;
    assert_eq!(d.drive(handle_ime_check_timer()), Outcome::SwitchedOff);
    assert_eq!(d.log, vec![Call::ReadConfig]);
}

#[test]
fn timer_needs_a_foreground_window() {
    let mut d = desktop();
    d.foreground = 0;
    assert_eq!(d.drive(handle_ime_check_timer()), Outcome::NoWindow);
    assert_eq!(d.log, vec![Call::ReadConfig, Call::ForegroundWindow]);
}

#[test]
fn timer_leaves_a_match_alone() {
    let mut d = desktop();
    d.status = Some((1, 0));
    assert_eq!(d.drive(handle_ime_check_timer()), Outcome::Matched);
    assert!(!d.log.contains(&settings_change()));
}

#[test]
fn timer_corrects_a_mismatch() {
    let mut d = desktop();
    let outcome = d.drive(handle_ime_check_timer());
    assert!(matches!(
        outcome,
        Outcome::Enforced(Enforcement { channel: Some(Channel::Imm32), .. })
    ));
    assert_eq!(d.log[2], Call::WindowThread(HWND));
}

#[test]
fn event_settles_before_it_is_corrected() {
    let mut d = desktop();
    let outcome = d.drive(event_hook_callback(HWND));
    assert!(matches!(outcome, Outcome::Enforced(_)));
    assert_eq!(
        d.log[..6],
        [
            Call::ReadClock,
            Call::LoadLastEvent,
            Call::StoreLastEvent(LastEvent { hwnd: HWND, ms: 1_000_000 }),
            Call::ReadConfig,
            Call::Settle(100),
            Call::WindowThread(HWND)
        ]
    );
}

#[test]
fn repeated_event_is_debounced() {
    let mut d = desktop();
    d.drive(event_hook_callback(HWND));
    d.log.clear();
    d.clock = Some(1_000_499);
    assert_eq!(d.drive(event_hook_callback(HWND)), Outcome::Debounced);
    assert_eq!(d.log, vec![Call::ReadClock, Call::LoadLastEvent]);
    d.config.master_switch = false;
    assert_eq!(d.drive(event_hook_callback(HWND + 1)), Outcome::SwitchedOff);
    assert_eq!(d.last, LastEvent { hwnd: HWND + 1, ms: 1_000_499 });
    d.clock = Some(1_000_998);
    assert_eq!(d.drive(event_hook_callback(HWND + 1)), Outcome::Debounced);
    d.clock = Some(1_000_999);
    assert_eq!(d.drive(event_hook_callback(HWND + 1)), Outcome::SwitchedOff);
}

#[test]
fn event_without_a_clock_is_at_zero() {
    let mut d = desktop();
    d.clock = None;
    d.config.master_switch = false;
    assert_eq!(d.drive(event_hook_callback(HWND)), Outcome::SwitchedOff);
    assert_eq!(d.last, LastEvent { hwnd: HWND, ms: 0 });
    assert_eq!(d.drive(event_hook_callback(HWND)), Outcome::Debounced);
}

const IDS: HotkeyIds = HotkeyIds { toggle: 100, switch_mode: 101 };

fn press(d: &mut Desktop, wparam: usize) -> Option<HotkeyAction> {
    match handle_hotkey(IDS, HWND, wparam) {
        Step::Waits(procedure) => d.drive(procedure),
        Step::Over(action) => action,
    }
}

#[test]
fn toggle_key_flips_the_switch() {
    let mut d = desktop();
    let before = d.config;
    let off = Config { master_switch: false, ..before };
    assert_eq!(press(&mut d, 100), Some(HotkeyAction::Toggle));
    assert_eq!(d.config, off);
    assert_eq!(
        d.log,
        vec![
            Call::LockConfig,
            Call::StoreConfig(off),
            Call::UpdateTrayIcon(HWND, false),
            Call::ReadConfig,
            Call::ShowBalloon(HWND, false)
        ]
    );
    assert_eq!(press(&mut d, 100), Some(HotkeyAction::Toggle));
    assert_eq!(d.config, before);
}

#[test]
fn toggle_key_is_silent_without_notifications() {
    let mut d = desktop();
    d.config.show_notifications = false;
    assert_eq!(press(&mut d, 100), Some(HotkeyAction::Toggle));
    assert_eq!(d.log.len(), 4);
}

#[test]
fn mode_key_changes_the_mode() {
    let mut d = desktop();
    let before = d.config;
    let english = Config { ime_mode: ENGLISH, ..before };
    assert_eq!(press(&mut d, 101), Some(HotkeyAction::SwitchMode));
    assert_eq!(
        d.log,
        vec![Call::LockConfig, Call::StoreConfig(english), Call::ApplySetting(HWND, ENGLISH)]
    );
    assert_eq!(press(&mut d, 101), Some(HotkeyAction::SwitchMode));
    assert_eq!(d.config, before);
}

#[test]
fn unknown_key_does_nothing() {
    let mut d = desktop();
    assert_eq!(press(&mut d, 102), None);
    assert_eq!(d.log, vec![]);
}

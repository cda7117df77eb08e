use ime_lock::call::{Call, Channel, LastEvent, Reply, Warning};
use ime_lock::clock::{is_debounced, is_warning_due, now_ms};
use ime_lock::enforce::LayoutFailure;
use ime_lock::hotkey::{HotkeyAction, HotkeyIds};
use ime_lock::layout::{choose_layout, is_stored, layout_name, wide_layout_name, LayoutCheck};
use ime_lock::mode::{is_native, layout_language, Config, ImeMode};
use ime_lock::resources::{
    is_gnu_target, mtime_newer, needs_build, rc_outcome, rc_program, RcOutcome, Windres,
};
use ime_lock::shift::{is_held, ModifierKey};
use ime_lock::text::{
    balloon_message, balloon_title, channel_name, failure_message, foreground_context,
    push_decimal, push_hexadecimal, push_utf16, warning_message,
};

const CHINESE: ImeMode = ImeMode::ChineseOnly;
const ENGLISH: ImeMode = ImeMode::EnglishOnly;

#[test]
fn pin_touches_the_native_bit_alone() {
    assert_eq!(CHINESE.pin(0x0400), 0x0401);
    assert_eq!(CHINESE.pin(0x0401), 0x0401);
    assert_eq!(ENGLISH.pin(0x0401), 0x0400);
    assert_eq!(ENGLISH.pin(0x0400), 0x0400);
    assert_eq!(CHINESE.pin(u32::MAX), u32::MAX);
    assert_eq!(ENGLISH.pin(u32::MAX), 0xFFFF_FFFE);
    assert_eq!(ENGLISH.pin(CHINESE.pin(9)), ENGLISH.pin(9));
    assert!(is_native(CHINESE.pin(8)));
    assert!(!is_native(ENGLISH.pin(9)));
}

#[test]
fn languages_of_modes_and_layouts() {
    assert_eq!(CHINESE.target_language(), 0x0804);
    assert_eq!(ENGLISH.target_language(), 0x0409);
    assert_eq!(layout_language(0xE001_0804), 0x0804);
    assert_eq!(layout_language(0x0409), 0x0409);
    assert_eq!(CHINESE.toggled(), ENGLISH);
    assert_eq!(CHINESE.toggled().toggled(), CHINESE);
}

#[test]
fn clock_readings() {
    assert_eq!(now_ms(None), 0);
    assert_eq!(now_ms(Some(1_700_000_000_123)), 1_700_000_000_123);
    assert_eq!(now_ms(Some((1u128 << 64) + 7)), 7);
}

#[test]
fn debouncing() {
    let last = LastEvent { hwnd: 5, ms: 1_000 };
    assert!(is_debounced(last, LastEvent { hwnd: 5, ms: 1_000 }));
    assert!(is_debounced(last, LastEvent { hwnd: 5, ms: 1_499 }));
    assert!(!is_debounced(last, LastEvent { hwnd: 5, ms: 1_500 }));
    assert!(!is_debounced(last, LastEvent { hwnd: 6, ms: 1_000 }));
    assert!(is_debounced(last, LastEvent { hwnd: 5, ms: 10 }));
}

#[test]
fn burst_is_handled_once() {
    let mut last = LastEvent { hwnd: 0, ms: 0 };
    let mut handled = Vec::new();
    for ms in [1_000u64, 1_200, 1_499, 1_500, 1_900, 2_000] {
        let event = LastEvent { hwnd: 9, ms };
        if !is_debounced(last, event) {
            last = event;
            handled.push(ms);
        }
    }
    assert_eq!(handled, vec![1_000, 1_500, 2_000]);
}

#[test]
fn throttling() {
    assert!(is_warning_due(0, 30_000));
    assert!(!is_warning_due(0, 29_999));
    assert!(!is_warning_due(50_000, 40_000));
    let mut stamp = 0u64;
    let mut written = Vec::new();
    let mut now = 1_000_000u64;
    while now < 1_100_000 {
        if is_warning_due(stamp, now) {
            stamp = now;
            written.push(now);
        }
        now += 1_500;
    }
    assert_eq!(written, vec![1_000_000, 1_030_000, 1_060_000, 1_090_000]);
}

#[test]
fn first_input_method_is_preferred() {
    let list = vec![0x0409, 0x0804, 0x1_0804, 0xE001_0804];
    assert_eq!(choose_layout(0x0804, 4, &list), 0x1_0804);
    assert_eq!(choose_layout(0x0409, 4, &list), 0x0409);
}

#[test]
fn first_layout_is_the_fallback() {
    let list = vec![0x0411, 0x0804, 0xE001_0409];
    assert_eq!(choose_layout(0x0804, 3, &list), 0x0804);
    assert_eq!(choose_layout(0x0412, 3, &list), 0x0412);
    assert_eq!(choose_layout(0x0804, 3, &vec![]), 0x0804);
}

#[test]
fn only_stored_layouts_count() {
    let list = vec![0x0804, 0xE001_0804];
    assert_eq!(choose_layout(0x0804, 1, &list), 0x0804);
    assert_eq!(choose_layout(0x0804, 2, &list), 0xE001_0804);
    assert_eq!(choose_layout(0x0804, 99, &list), 0xE001_0804);
    assert_eq!(choose_layout(0x0409, -1, &vec![0xE001_0409]), 0x0409);
}

#[test]
fn stored_layouts_are_found() {
    let layouts = vec![0x0409_0409, 0x0804_0804, 0x0407_0407];
    assert!(is_stored(0x0804_0804, 2, &layouts));
    assert!(!is_stored(0x0407_0407, 2, &layouts));
    assert!(is_stored(0x0407_0407, 9, &layouts));
    assert!(!is_stored(0x0409_0409, -1, &layouts));
    assert!(!is_stored(0x0804, 3, &layouts));
    let none = vec![];
    assert!(!is_stored(0, 1, &none));
}

#[test]
fn layout_names() {
    assert_eq!(layout_name(CHINESE), "00000804");
    assert_eq!(layout_name(ENGLISH), "00000409");
    for mode in [CHINESE, ENGLISH] {
        let expected: Vec<u16> = layout_name(mode).encode_utf16().chain(std::iter::once(0)).collect();
        assert_eq!(wide_layout_name(mode), expected);
        assert_eq!(layout_name(mode), format!("{:08x}", mode.target_language()));
    }
}

#[test]
fn layout_checks() {
    assert!(LayoutCheck { hkl: 0x0804, current: 0x0804, target: 0x0804 }.is_consistent());
    assert!(!LayoutCheck { hkl: 0x0409, current: 0x0409, target: 0x0804 }.is_consistent());
}

#[test]
fn key_states() {
    assert!(is_held(i16::MIN));
    assert!(is_held(-1));
    assert!(!is_held(0));
    assert!(!is_held(1));
    assert!(!is_held(i16::MAX));
}

#[test]
fn modifier_keys_in_order() {
    let mut codes = Vec::new();
    let mut key = Some(ModifierKey::Shift);
    while let Some(k) = key {
        codes.push(k.vk());
        key = k.next_key();
    }
    assert_eq!(
        codes,
        vec![0x10, 0xA0, 0xA1, 0x11, 0xA2, 0xA3, 0x12, 0xA4, 0xA5, 0x5B, 0x5C]
    );
}

#[test]
fn hotkey_meanings() {
    let ids = HotkeyIds { toggle: 1, switch_mode: 2 };
    assert_eq!(ids.action(1), Some(HotkeyAction::Toggle));
    assert_eq!(ids.action(2), Some(HotkeyAction::SwitchMode));
    assert_eq!(ids.action(3), None);
    assert_eq!(ids.action((1usize << 32) + 2), Some(HotkeyAction::SwitchMode));
}

#[test]
fn settings_change_one_at_a_time() {
    let config = Config { master_switch: true, ime_mode: CHINESE, show_notifications: false };
    assert_eq!(
        config.with_master_flipped(),
        Config { master_switch: false, ime_mode: CHINESE, show_notifications: false }
    );
    assert_eq!(
        config.with_mode_switched(),
        Config { master_switch: true, ime_mode: ENGLISH, show_notifications: false }
    );
    assert_eq!(config.with_master_flipped().with_master_flipped(), config);
    assert_eq!(config.with_mode_switched().with_mode_switched(), config);
}

#[test]
fn calls_accept_their_answers_only() {
    assert!(Call::ReadClock.accepts(&Reply::Clock(None)));
    assert!(!Call::ReadClock.accepts(&Reply::Done));
    assert!(Call::GetContext(1).accepts(&Reply::Handle(0)));
    assert!(!Call::GetContext(1).accepts(&Reply::Flag(true)));
    assert!(Call::ReleaseContext(1, 2).accepts(&Reply::Done));
    assert!(Call::LayoutList(2).accepts(&Reply::Layouts(0, vec![])));
    assert!(Call::Settle(100).accepts(&Reply::Done));
    assert!(!Call::Settle(100).accepts(&Reply::Word(0)));
}

#[test]
fn decimal_numbers() {
    for n in [0u32, 7, 10, 99, 100, 4_096, 1_000_000_007, u32::MAX] {
        let mut text = String::from("pid=");
        push_decimal(&mut text, n);
        assert_eq!(text, format!("pid={}", n));
    }
}

#[test]
fn hexadecimal_numbers() {
    for n in [0u32, 1, 0xA, 0x1F, 0xDEAD_BEEF, u32::MAX] {
        let mut text = String::new();
        push_hexadecimal(&mut text, n, 8);
        assert_eq!(text, format!("{:08x}", n));
    }
    let mut text = String::new();
    push_hexadecimal(&mut text, 0x0804, 4);
    assert_eq!(text, "0804");
}

#[test]
fn utf16_is_decoded_as_std_does() {
    let samples: Vec<Vec<u16>> = vec![
        vec![],
        "Notepad".encode_utf16().collect(),
        "微信 😀 a𝄞b".encode_utf16().collect(),
        vec![0xD800],
        vec![0xDC00],
        vec![0xD834, 0xDD1E],
        vec![0xD834, 0x0041],
        vec![0xD834, 0xD834, 0xDD1E],
        vec![0xDD1E, 0xD834],
        vec![0x0041, 0xDBFF, 0xDFFF, 0x0000, 0xD7FF, 0xE000, 0xFFFF],
        vec![0xD800, 0xDBFF, 0xDC00, 0xDFFF],
    ];
    for units in samples {
        let mut text = String::from(">");
        push_utf16(&mut text, &units, units.len());
        assert_eq!(text, format!(">{}", String::from_utf16_lossy(&units)));
    }
}

#[test]
fn utf16_stops_at_the_length() {
    let mut text = String::new();
    push_utf16(&mut text, &[0x61, 0xD834, 0xDD1E], 2);
    assert_eq!(text, "a\u{FFFD}");
}

#[test]
fn windows_are_described() {
    let mut class = [0u16; 128];
    let mut title = [0u16; 128];
    let name: Vec<u16> = "Chrome_WidgetWin_1".encode_utf16().collect();
    let caption: Vec<u16> = "新标签页".encode_utf16().collect();
    class[..name.len()].copy_from_slice(&name);
    title[..caption.len()].copy_from_slice(&caption);
    assert_eq!(
        foreground_context(&class, name.len() as i32, &title, caption.len() as i32, 4242),
        "Chrome_WidgetWin_1 [新标签页] pid=4242"
    );
    assert_eq!(foreground_context(&class, 0, &title, 0, 0), "? [] pid=0");
    assert_eq!(foreground_context(&class, -1, &title, -1, 7), "? [] pid=7");
}

#[test]
fn warnings_say_what_happened() {
    assert_eq!(
        warning_message(
            Warning::NotNative { source: Channel::DefImeWnd, cmode: 0x400 },
            "Notepad [a] pid=1"
        ),
        "检测到非中文子模式: 来源=DefIMEWnd cmode=0x00000400 窗口=Notepad [a] pid=1"
    );
    assert_eq!(
        warning_message(Warning::DefImeRejected, "x"),
        "DefIMEWnd 设置转换状态被拒绝（微软拼音 TSF 常见行为）"
    );
    assert_eq!(warning_message(Warning::DefImeUnavailable, "x"), "DefIMEWnd 不可用，跳过该通道");
    assert_eq!(warning_message(Warning::ModifierHeld, "x"), "检测到修饰键按住，跳过 Shift 模拟");
    assert_eq!(warning_message(Warning::ShiftNotSent, "x"), "模拟 Shift 未执行或发送失败");
    assert_eq!(
        warning_message(Warning::AllChannelsFailed, "x"),
        "所有转换状态设置通道均失败（EnglishOnly 无 Shift 兜底）"
    );
    assert_eq!(channel_name(Channel::Imm32), "IMM32");
}

#[test]
fn layout_failures_say_what_happened() {
    assert_eq!(failure_message(LayoutFailure::LoadFailed), "LoadKeyboardLayout 失败");
    assert_eq!(failure_message(LayoutFailure::NotActivated), "LoadKeyboardLayout 后激活失败");
}

#[test]
fn balloons_say_whether_the_tool_is_active() {
    assert_eq!(balloon_title(), "快捷键触发");
    assert_eq!(balloon_message(true), "已启用强制输入法模式");
    assert_eq!(balloon_message(false), "已恢复输入法自动切换");
}

#[test]
fn gnu_targets() {
    assert!(is_gnu_target("x86_64-pc-windows-gnu"));
    assert!(is_gnu_target("-windows-gnu"));
    assert!(!is_gnu_target("x86_64-pc-windows-msvc"));
    assert!(!is_gnu_target("x86_64-pc-windows-gnullvm"));
    assert!(!is_gnu_target("windows-gnu"));
    assert!(!is_gnu_target(""));
}

#[test]
fn stale_outputs_are_built() {
    assert!(mtime_newer(Some(2), Some(1)));
    assert!(!mtime_newer(Some(1), Some(1)));
    assert!(mtime_newer(Some(1), None));
    assert!(!mtime_newer(None, Some(1)));
    assert!(!mtime_newer(None, None));
    assert!(needs_build(false, None, None));
    assert!(needs_build(true, Some(2), Some(1)));
    assert!(!needs_build(true, Some(1), Some(2)));
}

#[test]
fn resource_compilers() {
    assert_eq!(Windres::Cross.program(), "x86_64-w64-mingw32-windres");
    assert_eq!(Windres::Native.program(), "windres");
    assert_eq!(Windres::Cross.after(false), Some(Windres::Native));
    assert_eq!(Windres::Cross.after(true), None);
    assert_eq!(Windres::Native.after(false), None);
    assert_eq!(rc_program(None), "rc");
    assert_eq!(
        rc_program(Some("C:\\VS")),
        "C:\\VS\\VC\\Tools\\MSVC\\14.XX.XXXXX\\bin\\Hostx64\\x64\\rc.exe"
    );
    assert_eq!(rc_outcome(true, false), RcOutcome::Compiled);
    assert_eq!(rc_outcome(false, true), RcOutcome::KeepExisting);
    assert_eq!(rc_outcome(false, false), RcOutcome::CreateEmpty);
}

//! Courses: what each procedure must do, told from the answers that it gets.
//!
//! The laws here speak of calls, answers and numbers alone, so that they pin down the scripts
//! themselves.

use vstd::prelude::*;

use crate::call::{Call, Channel, KeyInput, LastEvent, Reply, Warning, WarningKind};
use crate::clock;
use crate::convert;
use crate::defime;
use crate::detect;
use crate::enforce;
use crate::enforce::Enforcement;
use crate::hotkey::{HotkeyAction, HotkeyIds};
use crate::laws;
use crate::layout;
use crate::layout::LayoutCheck;
use crate::mode;
use crate::mode::{Config, ImeMode};
use crate::script;
use crate::script::{Exchange, Script};
use crate::shift;
use crate::shift::ModifierKey;
use crate::watch;
use crate::watch::Outcome;

verus! {

/// The milliseconds that an answer of the clock stands for: a word of 64 bits, and nothing before
/// the Unix epoch.
pub open spec fn millis(reply: Reply) -> int {
    match reply->Clock_0 {
        Some(ms) => ms as int % 0x1_0000_0000_0000_0000,
        None => 0,
    }
}

/// The time of a clock reading differs from the reading by whole multiples of 2^64, and a clock
/// that stands before the epoch reads zero.
pub proof fn law_clock_reading(reading: Option<u128>)
    ensures
        reading is None ==> clock::clock_ms(reading) == 0,
        reading matches Some(ms) ==> (ms as int - clock::clock_ms(reading) as int)
            % 0x1_0000_0000_0000_0000 == 0,
        reading matches Some(ms) ==> ms <= u64::MAX ==> clock::clock_ms(reading) == ms,
        clock::clock_ms(reading) == millis(Reply::Clock(reading)),
{
}

/// An event is ignored only on the window that was handled last, and only less than half a second
/// after it was; there it always is, also when the clock went back.
pub proof fn law_debounce_goes_by_distance(last: LastEvent, event: LastEvent)
    ensures
        event.hwnd != last.hwnd ==> !clock::debounced(last, event),
        event.ms >= last.ms + 500 ==> !clock::debounced(last, event),
        event.hwnd == last.hwnd && event.ms < last.ms + 500 ==> clock::debounced(last, event),
{
}

/// A warning is due from half a minute after the last one of its kind on, and never before.
pub proof fn law_due_goes_by_distance(last: u64, now: u64)
    ensures
        now >= last + 30_000 ==> clock::warning_due(last, now),
        now < last + 30_000 ==> !clock::warning_due(last, now),
{
}

/// Two warnings are throttled together exactly if both are about the sub-mode, both about the
/// default input-method window, or neither about either.
pub proof fn law_kinds_of_warnings(warning: Warning)
    ensures
        warning.kind() == WarningKind::Mismatch <==> warning is NotNative,
        warning.kind() == WarningKind::DefIme <==> warning is DefImeRejected || warning
            is DefImeUnavailable,
        warning.kind() == WarningKind::Shift <==> warning is ModifierHeld || warning is ShiftNotSent
            || warning is AllChannelsFailed,
{
}

/// A throttled warning reads the clock and the time of the last one of its kind. Less than half a
/// minute after that it ends there, unwritten. From half a minute on it always tries to put its own
/// time in the place of the one that it found; if that works it is written, else it is not.
pub proof fn law_warning_course(warning: Warning, log: Seq<Exchange>, written: bool)
    requires
        clock::warn_script(warning).runs(log, written),
    ensures
        log.len() >= 2,
        log[0].call == Call::ReadClock,
        log[1].call == Call::LoadStamp(warning.kind()),
        millis(log[0].reply) < log[1].reply->Stamp_0 + 30_000 ==> log.len() == 2 && !written,
        millis(log[0].reply) >= log[1].reply->Stamp_0 + 30_000 ==> {
            &&& log.len() >= 3
            &&& log[2].call == (Call::ExchangeStamp {
                kind: warning.kind(),
                old: log[1].reply->Stamp_0,
                new: millis(log[0].reply) as u64,
            })
            &&& !log[2].reply->Flag_0 ==> log.len() == 3 && !written
            &&& log[2].reply->Flag_0 ==> log.len() == 4 && written && log[3].call
                == Call::WriteWarning(warning)
        },
{
    clock::law_warning_needs_its_slot(warning, log, written);
    law_clock_reading(log[0].reply->Clock_0);
    law_due_goes_by_distance(log[1].reply->Stamp_0, millis(log[0].reply) as u64);
}

/// Whether a log is that of a throttled warning, written or not.
pub open spec fn warning_tried(warning: Warning, log: Seq<Exchange>) -> bool {
    exists|written: bool| #[trigger] clock::warn_script(warning).runs(log, written)
}

/// Whether `found` is what a log reads through the default input-method window of `hwnd`, from
/// the exchange with index `n` on and up to the one before `m`: the window is looked up, and if
/// there is one, it is asked for its conversion mode.
pub open spec fn window_read(
    hwnd: usize,
    log: Seq<Exchange>,
    n: int,
    m: int,
    found: Option<u32>,
) -> bool {
    &&& 0 <= n < m <= log.len()
    &&& log[n].call == Call::DefaultImeWindow(hwnd)
    &&& log[n].reply->Handle_0 == 0 ==> m == n + 1 && found is None
    &&& log[n].reply->Handle_0 != 0 ==> {
        &&& m == n + 2
        &&& log[n + 1].call == (Call::ImeControl {
            wnd: log[n].reply->Handle_0,
            command: 5,
            value: 0,
        })
        &&& found == Some(log[n + 1].reply->Word_0 as u32)
    }
}

/// Whether a log writes a conversion mode through the default input-method window of `hwnd`, from
/// the exchange with index `n` on and up to the one before `m`: the window is looked up, and if
/// there is one, its input method is opened and gets the mode. It is accepted exactly if the
/// answer to the latter is not zero.
pub open spec fn window_write(
    hwnd: usize,
    cmode: u32,
    log: Seq<Exchange>,
    n: int,
    m: int,
    accepted: bool,
) -> bool {
    &&& 0 <= n < m <= log.len()
    &&& log[n].call == Call::DefaultImeWindow(hwnd)
    &&& log[n].reply->Handle_0 == 0 ==> m == n + 1 && !accepted
    &&& log[n].reply->Handle_0 != 0 ==> {
        &&& m == n + 3
        &&& log[n + 1].call == (Call::ImeControl {
            wnd: log[n].reply->Handle_0,
            command: 3,
            value: 1,
        })
        &&& log[n + 2].call == (Call::ImeControl {
            wnd: log[n].reply->Handle_0,
            command: 6,
            value: cmode as isize,
        })
        &&& accepted == (log[n + 2].reply->Word_0 != 0)
    }
}

/// Reading through the default input-method window always asks the window, if there is one.
pub proof fn law_window_is_read(hwnd: usize, log: Seq<Exchange>, found: Option<u32>)
    requires
        defime::get_mode_script(hwnd).runs(log, found),
    ensures
        window_read(hwnd, log, 0, log.len() as int, found),
{
    reveal_with_fuel(Script::runs, 4);
    let rest = log.drop_first();
    if rest.len() > 0 {
        assert(log[1] == rest[0]);
    }
}

/// Writing through the default input-method window always opens the input method and sends the
/// mode, if there is a window.
pub proof fn law_window_is_written(hwnd: usize, cmode: u32, log: Seq<Exchange>, accepted: bool)
    requires
        defime::set_mode_script(hwnd, cmode).runs(log, accepted),
    ensures
        window_write(hwnd, cmode, log, 0, log.len() as int, accepted),
{
    reveal_with_fuel(Script::runs, 5);
    let l1 = log.drop_first();
    if l1.len() > 0 {
        assert(log[1] == l1[0]);
        assert(log[2] == l1.drop_first()[0]);
    }
}

/// The virtual keys that count as modifiers, in the order in which they are asked for: Shift,
/// Control and Alt, each as either, left and right key, then the two Windows keys.
pub open spec fn modifier_codes() -> Seq<i32> {
    seq![0x10, 0xA0, 0xA1, 0x11, 0xA2, 0xA3, 0x12, 0xA4, 0xA5, 0x5B, 0x5C]
}

/// The keys have the codes of the platform, and each is looked at in its turn.
pub proof fn law_modifier_codes(key: ModifierKey)
    ensures
        key.position() < 11,
        key.code() == modifier_codes()[key.position() as int],
        key.successor() is None <==> key.position() == 10,
        key.successor() matches Some(next) ==> next.position() == key.position() + 1,
        key.code() == match key {
            ModifierKey::Shift => 0x10i32,
            ModifierKey::LShift => 0xA0,
            ModifierKey::RShift => 0xA1,
            ModifierKey::Control => 0x11,
            ModifierKey::LControl => 0xA2,
            ModifierKey::RControl => 0xA3,
            ModifierKey::Menu => 0x12,
            ModifierKey::LMenu => 0xA4,
            ModifierKey::RMenu => 0xA5,
            ModifierKey::LWin => 0x5B,
            ModifierKey::RWin => 0x5C,
        },
{
}

/// A key is down exactly if the highest bit of its state is set.
pub proof fn law_held_is_the_highest_bit(state: i16)
    ensures
        shift::held(state) <==> state & i16::MIN != 0,
        shift::held(state) <==> state < 0,
{
    assert((state & i16::MIN != 0) == (state < 0)) by (bit_vector);
}

/// Whether a log asks for the modifier keys, from the exchange with index `n` on and up to the one
/// before `m`: for one after the other, up to the first that is down. `any` says whether one is; if
/// none is, all of them were asked for.
pub open spec fn modifiers_asked(log: Seq<Exchange>, n: int, m: int, any: bool) -> bool {
    &&& 0 <= n < m <= log.len()
    &&& m - n <= 11
    &&& forall|i: int|
        n <= i < m ==> #[trigger] log[i].call == Call::KeyState(modifier_codes()[i - n])
    &&& forall|i: int| n <= i < m - 1 ==> (#[trigger] log[i]).reply->Key_0 >= 0
    &&& any == (log[m - 1].reply->Key_0 < 0)
    &&& !any ==> m - n == 11
}

/// The part of the modifier keys that starts with `key`.
proof fn lemma_modifiers_asked(key: ModifierKey, log: Seq<Exchange>, any: bool)
    requires
        shift::modifiers_from(key).runs(log, any),
    ensures
        0 < log.len() <= 11 - key.position(),
        forall|i: int|
            0 <= i < log.len() ==> #[trigger] log[i].call == Call::KeyState(
                modifier_codes()[i + key.position()],
            ),
        forall|i: int| 0 <= i < log.len() - 1 ==> (#[trigger] log[i]).reply->Key_0 >= 0,
        any == (log[log.len() - 1].reply->Key_0 < 0),
        !any ==> log.len() == 11 - key.position(),
    decreases 10 - key.position(),
{
    reveal_with_fuel(Script::runs, 2);
    law_modifier_codes(key);
    let rest = log.drop_first();
    assert(forall|i: int| 0 < i < log.len() ==> #[trigger] log[i] == rest[i - 1]);
    match key.successor() {
        Some(next) => if !shift::held(log[0].reply->Key_0) {
            lemma_modifiers_asked(next, rest, any);
            assert(log[log.len() - 1] == rest[rest.len() - 1]);
        },
        None => {},
    }
}

/// The modifier keys are asked for one after the other, up to the first that is down, and all of
/// them if none is.
pub proof fn law_modifiers_are_asked(log: Seq<Exchange>, any: bool)
    requires
        shift::modifiers_script().runs(log, any),
    ensures
        modifiers_asked(log, 0, log.len() as int, any),
{
    lemma_modifiers_asked(ModifierKey::Shift, log, any);
}

/// Shift going down and up again.
pub open spec fn shift_press() -> Call {
    Call::SendInput(KeyInput { vk: 0x10, up: false }, KeyInput { vk: 0x10, up: true })
}

/// A tap of Shift asks for the modifier keys. If one is down it warns and sends nothing; if all are
/// up it sends Shift down and up, always, and succeeds exactly if both events were taken. Returns
/// how many keys were asked for.
pub proof fn law_tap_course(log: Seq<Exchange>, tapped: bool) -> (n: int)
    requires
        shift::tap_script().runs(log, tapped),
    ensures
        modifiers_asked(log, 0, n, log[n - 1].reply->Key_0 < 0),
        log[n - 1].reply->Key_0 < 0 ==> !tapped && warning_tried(
            Warning::ModifierHeld,
            log.skip(n),
        ),
        log[n - 1].reply->Key_0 >= 0 ==> {
            &&& n == 11
            &&& log.len() == 12
            &&& log[11].call == shift_press()
            &&& tapped == (log[11].reply->Injected_0 == 2)
        },
{
    reveal_with_fuel(Script::runs, 3);
    let (n, any) = script::lemma_runs_split(
        shift::modifiers_script(),
        shift::tap_unless(),
        log,
        tapped,
    );
    let keys = log.take(n);
    let rest = log.skip(n);
    law_modifiers_are_asked(keys, any);
    assert(forall|i: int| 0 <= i < n ==> #[trigger] log[i] == keys[i]);
    assert(modifiers_asked(log, 0, n, any));
    if any {
        let (m, written) = script::lemma_runs_split(
            clock::warn_script(Warning::ModifierHeld),
            shift::not_tapped(),
            rest,
            tapped,
        );
        assert(rest.take(m) =~= rest);
    } else {
        assert(log[11] == rest[0]);
    }
    n
}

/// A conversion mode with its lowest bit set for Chinese and cleared for English.
pub open spec fn with_native(mode: ImeMode, cmode: u32) -> u32 {
    if mode is ChineseOnly {
        cmode | 1
    } else {
        cmode & !1u32
    }
}

/// Pinning sets the lowest bit of a conversion mode for Chinese and clears it for English. That bit
/// is what makes a mode native.
pub proof fn law_pin_in_bits(mode: ImeMode, cmode: u32)
    ensures
        mode.pinned(cmode) == with_native(mode, cmode),
        mode::native(cmode) <==> cmode & 1 == 1,
        mode::native(cmode) <==> cmode % 2 == 1,
{
    assert(cmode | 1 == cmode / 2 * 2 + 1) by (bit_vector);
    assert(cmode & !1u32 == cmode / 2 * 2) by (bit_vector);
    assert((cmode & 1 == 1) == (cmode % 2 == 1)) by (bit_vector);
}

/// The modes stand for the languages of the platform, and a layout names its language in its low
/// word.
pub proof fn law_languages(hkl: usize)
    ensures
        ImeMode::ChineseOnly.language() == 0x0804,
        ImeMode::EnglishOnly.language() == 0x0409,
        mode::language_of(hkl) == hkl & 0xFFFF,
        mode::language_of(hkl) == hkl % 0x1_0000,
        ImeMode::ChineseOnly.other() == ImeMode::EnglishOnly,
        ImeMode::EnglishOnly.other() == ImeMode::ChineseOnly,
{
    assert(hkl & 0xFFFF == hkl % 0x1_0000) by (bit_vector);
}

/// Whether a log reads the conversion mode of `hwnd` as it must, from the exchange with index `n`
/// on and up to the one before `m`: the input context is asked for, its status is read if there
/// is one, and it is given back. A status that was read is the answer. Otherwise the default
/// input-method window is read.
pub open spec fn mode_query(
    hwnd: usize,
    log: Seq<Exchange>,
    n: int,
    m: int,
    found: Option<(u32, Channel)>,
) -> bool {
    let himc = log[n].reply->Handle_0;
    let status = log[n + 1].reply->Status_0;
    &&& 0 <= n < m <= log.len()
    &&& log[n].call == Call::GetContext(hwnd)
    &&& himc != 0 ==> {
        &&& n + 3 <= m
        &&& log[n + 1].call == Call::GetConversionStatus(himc)
        &&& log[n + 2].call == Call::ReleaseContext(hwnd, himc)
    }
    &&& himc != 0 && status is Some ==> m == n + 3 && found == Some(
        ((status->0).0, Channel::Imm32),
    )
    &&& himc == 0 || status is None ==> {
        let at = if himc == 0 {
            n + 1
        } else {
            n + 3
        };
        &&& found is None ==> window_read(hwnd, log, at, m, None)
        &&& found matches Some((cmode, source)) ==> source == Channel::DefImeWnd && window_read(
            hwnd,
            log,
            at,
            m,
            Some(cmode),
        )
    }
}

/// A window's conversion mode is read from its input context, or else from its default input-method
/// window; none is read only if neither can be.
pub proof fn law_query_course(hwnd: usize, log: Seq<Exchange>, found: Option<(u32, Channel)>)
    requires
        detect::query_script(hwnd).runs(log, found),
    ensures
        mode_query(hwnd, log, 0, log.len() as int, found),
{
    reveal_with_fuel(Script::runs, 5);
    let l1 = log.drop_first();
    let l2 = l1.drop_first();
    let l3 = l2.drop_first();
    if log[0].reply->Handle_0 == 0 {
        lemma_query_window(hwnd, l1, found);
        assert(forall|i: int| 1 <= i < log.len() ==> #[trigger] log[i] == l1[i - 1]);
    } else {
        assert(log[1] == l1[0]);
        assert(log[2] == l2[0]);
        if l1[0].reply->Status_0 is None {
            lemma_query_window(hwnd, l3, found);
            assert(forall|i: int| 3 <= i < log.len() ==> #[trigger] log[i] == l3[i - 3]);
        }
    }
}

/// The part of a query that reads the default input-method window.
proof fn lemma_query_window(hwnd: usize, log: Seq<Exchange>, found: Option<(u32, Channel)>)
    requires
        detect::query_default(hwnd).runs(log, found),
    ensures
        found is None ==> window_read(hwnd, log, 0, log.len() as int, None),
        found matches Some((cmode, source)) ==> source == Channel::DefImeWnd && window_read(
            hwnd,
            log,
            0,
            log.len() as int,
            Some(cmode),
        ),
{
    let (n, cmode) = script::lemma_runs_split(
        defime::get_mode_script(hwnd),
        detect::from_default(),
        log,
        found,
    );
    assert(log.take(n) =~= log);
    law_window_is_read(hwnd, log, cmode);
}

/// Detection looks at the keyboard of the window's thread first. English wants the English
/// keyboard, and Chinese is content with any other keyboard than the Chinese one; then nothing
/// else is asked.
pub proof fn law_detection_by_keyboard(
    hwnd: usize,
    mode: ImeMode,
    log: Seq<Exchange>,
    matches: bool,
)
    requires
        detect::matching_script(hwnd, mode).runs(log, matches),
    ensures
        log.len() >= 2,
        log[0].call == Call::WindowThread(hwnd),
        log[1].call == Call::KeyboardLayout(log[0].reply->Thread_0),
        mode is EnglishOnly ==> log.len() == 2 && matches == (log[1].reply->Handle_0 % 0x1_0000
            == 0x0409),
        mode is ChineseOnly && log[1].reply->Handle_0 % 0x1_0000 != 0x0804 ==> log.len() == 2
            && matches,
{
    reveal_with_fuel(Script::runs, 4);
    assert(log[1] == log.drop_first()[0]);
}

/// On a Chinese keyboard detection under Chinese always reads the conversion mode. It matches if
/// the mode is odd, or if there was none to read, and then nothing else is asked. If the mode is
/// even it does not match: the window is described and a warning is tried, which names the mode and
/// where it was read. Returns where the reading ends, and what was read.
pub proof fn law_detection_by_mode(hwnd: usize, log: Seq<Exchange>, matches: bool) -> (read: (
    int,
    Option<(u32, Channel)>,
))
    requires
        detect::matching_script(hwnd, ImeMode::ChineseOnly).runs(log, matches),
        log[1].reply->Handle_0 % 0x1_0000 == 0x0804,
    ensures
        mode_query(hwnd, log, 2, read.0, read.1),
        read.1 is None ==> matches && log.len() == read.0,
        read.1 matches Some((cmode, source)) ==> {
            &&& matches == (cmode % 2 == 1)
            &&& matches ==> log.len() == read.0
            &&& !matches ==> {
                &&& log.len() > read.0
                &&& log[read.0].call == Call::DescribeWindow(hwnd)
                &&& warning_tried(Warning::NotNative { source, cmode }, log.skip(read.0 + 1))
            }
        },
{
    reveal_with_fuel(Script::runs, 4);
    let l1 = log.drop_first();
    let l2 = l1.drop_first();
    assert(log[1] == l1[0]);
    assert(forall|i: int| 2 <= i < log.len() ==> #[trigger] log[i] == l2[i - 2]);
    let (n, found) = script::lemma_runs_split(
        detect::query_script(hwnd),
        detect::judged(hwnd),
        l2,
        matches,
    );
    let query = l2.take(n);
    let rest = l2.skip(n);
    law_query_course(hwnd, query, found);
    assert(forall|i: int| 2 <= i < n + 2 ==> #[trigger] log[i] == query[i - 2]);
    lemma_query_shift(hwnd, query, found, log, 2);
    match found {
        Some((cmode, source)) => if cmode % 2 != 1 {
            let warning = Warning::NotNative { source, cmode };
            let end = rest.drop_first();
            let (m, written) = script::lemma_runs_split(
                clock::warn_script(warning),
                detect::mismatched(),
                end,
                matches,
            );
            assert(end.take(m) =~= end);
            assert(log[n + 2] == rest[0]);
            assert(log.skip(n + 3) =~= end);
        },
        None => {},
    }
    (n + 2, found)
}

/// A query that is part of a longer log.
proof fn lemma_query_shift(
    hwnd: usize,
    part: Seq<Exchange>,
    found: Option<(u32, Channel)>,
    log: Seq<Exchange>,
    n: int,
)
    requires
        mode_query(hwnd, part, 0, part.len() as int, found),
        0 <= n,
        n + part.len() <= log.len(),
        forall|i: int| n <= i < n + part.len() ==> #[trigger] log[i] == part[i - n],
    ensures
        mode_query(hwnd, log, n, n + part.len(), found),
{
    assert(log[n] == part[0]);
    if part.len() > 1 {
        assert(log[n + 1] == part[1]);
    }
    if part.len() > 2 {
        assert(log[n + 2] == part[2]);
    }
    if part.len() > 3 {
        assert(log[n + 3] == part[3]);
    }
    if part.len() > 4 {
        assert(log[n + 4] == part[4]);
    }
}

/// Whether a log tries the input context of `hwnd` as it must, from the exchange with index `n` on
/// and up to the one before `m`: the context is asked for. If there is one, its status is read. A
/// status that was read is written back with its lowest bit as the mode wants it and the sentence
/// mode as it was. The context is given back. The mode is taken exactly if the write succeeds.
pub open spec fn context_tried(
    hwnd: usize,
    mode: ImeMode,
    log: Seq<Exchange>,
    n: int,
    m: int,
    taken: bool,
) -> bool {
    let himc = log[n].reply->Handle_0;
    &&& 0 <= n < m <= log.len()
    &&& log[n].call == Call::GetContext(hwnd)
    &&& himc == 0 ==> m == n + 1 && !taken
    &&& himc != 0 ==> {
        &&& n + 3 <= m
        &&& log[n + 1].call == Call::GetConversionStatus(himc)
        &&& log[m - 1].call == Call::ReleaseContext(hwnd, himc)
        &&& match log[n + 1].reply->Status_0 {
            Some((cmode, smode)) => {
                &&& m == n + 4
                &&& log[n + 2].call == Call::SetConversionStatus(
                    himc,
                    with_native(mode, cmode),
                    smode,
                )
                &&& taken == log[n + 2].reply->Flag_0
            },
            None => m == n + 3 && !taken,
        }
    }
}

/// Whether a log tries the default input-method window of `hwnd` as it must, from the exchange
/// with index `n` on and up to the one before `m`: the window's mode is read, and a mode that was
/// read is written back with its lowest bit as the mode wants it. `warning` is what goes wrong,
/// or none if the mode is accepted.
pub open spec fn window_tried(
    hwnd: usize,
    mode: ImeMode,
    log: Seq<Exchange>,
    n: int,
    m: int,
    warning: Option<Warning>,
) -> bool {
    &&& 0 <= n < m <= log.len()
    &&& log[n].reply->Handle_0 == 0 ==> window_read(hwnd, log, n, m, None) && warning == Some(
        Warning::DefImeUnavailable,
    )
    &&& log[n].reply->Handle_0 != 0 ==> {
        let old = log[n + 1].reply->Word_0 as u32;
        &&& window_read(hwnd, log, n, n + 2, Some(old))
        &&& window_write(hwnd, with_native(mode, old), log, n + 2, m, warning is None)
        &&& warning is None || warning == Some(Warning::DefImeRejected)
    }
}

/// Where the parts of a conversion end: the input context, the default input-method window, the
/// warning about it and the tap of Shift; and what that warning is, if there is one. A part that is
/// not reached ends where the log does.
pub struct ConversionParts {
    /// The end of the input context.
    pub context: int,
    /// The end of the default input-method window.
    pub window: int,
    /// What went wrong with the default input-method window.
    pub warning: Option<Warning>,
    /// The end of the warning about the default input-method window.
    pub warned: int,
    /// The end of the tap of Shift.
    pub tapped: int,
}

/// Whether a log pins the conversion mode of `hwnd` as it must. The input context is tried.
/// Unless it takes the mode, the default input-method window is. Unless that accepts it, a
/// warning is tried, and whatever comes of the warning, Shift is tapped for Chinese. A last
/// warning is tried if nothing worked. The result is the channel that worked.
pub open spec fn conversion(
    hwnd: usize,
    mode: ImeMode,
    log: Seq<Exchange>,
    channel: Option<Channel>,
    parts: ConversionParts,
) -> bool {
    &&& 0 < parts.context <= log.len()
    &&& context_tried(hwnd, mode, log, 0, parts.context, channel == Some(Channel::Imm32))
    &&& channel == Some(Channel::Imm32) ==> parts.context == log.len()
    &&& channel != Some(Channel::Imm32) ==> later_channels(hwnd, mode, log, channel, parts)
}

/// Whether a log goes on as it must after the input context did not take the mode.
pub open spec fn later_channels(
    hwnd: usize,
    mode: ImeMode,
    log: Seq<Exchange>,
    channel: Option<Channel>,
    parts: ConversionParts,
) -> bool {
    &&& window_tried(hwnd, mode, log, parts.context, parts.window, parts.warning)
    &&& parts.warning is None <==> channel == Some(Channel::DefImeWnd)
    &&& parts.warning is None ==> parts.window == log.len()
    &&& parts.warning is Some ==> {
        &&& parts.window <= parts.warned <= log.len()
        &&& warning_tried(parts.warning->0, log.subrange(parts.window, parts.warned))
        &&& last_channel(mode, log, channel, parts.warned, parts.tapped)
    }
}

/// Whether a log ends as it must after neither the input context nor the default input-method
/// window took the mode, and a warning was tried up to the exchange before `c`: for Chinese with
/// a tap of Shift up to the one before `d`, and with another warning unless that worked.
pub open spec fn last_channel(
    mode: ImeMode,
    log: Seq<Exchange>,
    channel: Option<Channel>,
    c: int,
    d: int,
) -> bool {
    match mode {
        ImeMode::ChineseOnly => {
            &&& 0 <= c <= d <= log.len()
            &&& channel is None || channel == Some(Channel::ShiftTap)
            &&& shift::tap_script().runs(log.subrange(c, d), channel == Some(Channel::ShiftTap))
            &&& channel is Some ==> d == log.len()
            &&& channel is None ==> warning_tried(Warning::ShiftNotSent, log.skip(d))
        },
        ImeMode::EnglishOnly => {
            &&& 0 <= c <= log.len()
            &&& channel is None
            &&& warning_tried(Warning::AllChannelsFailed, log.skip(c))
        },
    }
}

/// The part of a conversion that deals with the default input-method window alone.
proof fn lemma_window_tried(
    hwnd: usize,
    mode: ImeMode,
    log: Seq<Exchange>,
    n: int,
    old: u32,
    accepted: bool,
)
    requires
        0 <= n <= log.len(),
        defime::get_mode_script(hwnd).runs(log.take(n), Some(old)),
        defime::set_mode_script(hwnd, mode.pinned(old) as u32).runs(log.skip(n), accepted),
    ensures
        window_tried(
            hwnd,
            mode,
            log,
            0,
            log.len() as int,
            if accepted {
                None
            } else {
                Some(Warning::DefImeRejected)
            },
        ),
{
    let get = log.take(n);
    let put = log.skip(n);
    law_window_is_read(hwnd, get, Some(old));
    law_window_is_written(hwnd, mode.pinned(old) as u32, put, accepted);
    law_pin_in_bits(mode, old);
    assert(n == 2);
    assert(log[0] == get[0]);
    assert(log[1] == get[1]);
    assert(log[2] == put[0]);
    if put.len() > 1 {
        assert(log[3] == put[1]);
        assert(log[4] == put[2]);
    }
}

/// What stays true of a part when its log becomes part of a longer one.
proof fn lemma_window_shift(
    hwnd: usize,
    mode: ImeMode,
    part: Seq<Exchange>,
    m: int,
    warning: Option<Warning>,
    log: Seq<Exchange>,
    n: int,
)
    requires
        window_tried(hwnd, mode, part, 0, m, warning),
        0 <= n,
        n + part.len() <= log.len(),
        forall|i: int| n <= i < n + part.len() ==> #[trigger] log[i] == part[i - n],
    ensures
        window_tried(hwnd, mode, log, n, n + m, warning),
{
    assert(log[n] == part[0]);
    if m > 1 {
        assert(log[n + 1] == part[1]);
        assert(log[n + 2] == part[2]);
    }
    if m > 3 {
        assert(log[n + 3] == part[3]);
        assert(log[n + 4] == part[4]);
    }
}

/// The last channel of a conversion. Returns where the tap of Shift ends.
proof fn lemma_last_channel(
    mode: ImeMode,
    log: Seq<Exchange>,
    channel: Option<Channel>,
    written: bool,
) -> (d: int)
    requires
        convert::apply_last(mode)(written).runs(log, channel),
    ensures
        last_channel(mode, log, channel, 0, d),
{
    assert(log.skip(0) =~= log);
    match mode {
        ImeMode::ChineseOnly => {
            let (d, tapped) = script::lemma_runs_split(
                shift::tap_script(),
                convert::apply_tapped(),
                log,
                channel,
            );
            assert(log.subrange(0, d) =~= log.take(d));
            if !tapped {
                lemma_gives_up(Warning::ShiftNotSent, log.skip(d), channel);
            }
            d
        },
        ImeMode::EnglishOnly => {
            lemma_gives_up(Warning::AllChannelsFailed, log, channel);
            0
        },
    }
}

/// The end of a conversion that failed.
proof fn lemma_gives_up(warning: Warning, log: Seq<Exchange>, channel: Option<Channel>)
    requires
        convert::apply_give_up(warning).runs(log, channel),
    ensures
        channel is None,
        warning_tried(warning, log),
{
    let (n, written) = script::lemma_runs_split(
        clock::warn_script(warning),
        convert::apply_failed(),
        log,
        channel,
    );
    assert(log.take(n) =~= log);
}

/// The last channel in a longer log.
proof fn lemma_last_shift(
    mode: ImeMode,
    part: Seq<Exchange>,
    channel: Option<Channel>,
    c: int,
    d: int,
    log: Seq<Exchange>,
    n: int,
)
    requires
        0 <= n <= log.len(),
        part == log.skip(n),
        last_channel(mode, part, channel, c, d),
    ensures
        last_channel(mode, log, channel, n + c, n + d),
{
    assert(log.skip(n + c) =~= part.skip(c));
    if mode is ChineseOnly {
        assert(log.subrange(n + c, n + d) =~= part.subrange(c, d));
        assert(log.skip(n + d) =~= part.skip(d));
    }
}

/// The part of a conversion from a warning about the default input-method window on. Returns where
/// the warning and the tap of Shift end.
proof fn lemma_warned_channel(
    mode: ImeMode,
    warning: Warning,
    log: Seq<Exchange>,
    channel: Option<Channel>,
) -> (ends: (int, int))
    requires
        convert::apply_warn(mode, warning).runs(log, channel),
    ensures
        0 <= ends.0 <= log.len(),
        warning_tried(warning, log.take(ends.0)),
        last_channel(mode, log, channel, ends.0, ends.1),
{
    let (n, written) = script::lemma_runs_split(
        clock::warn_script(warning),
        convert::apply_last(mode),
        log,
        channel,
    );
    let rest = log.skip(n);
    let d = lemma_last_channel(mode, rest, channel, written);
    lemma_last_shift(mode, rest, channel, 0, d, log, n);
    (n, n + d)
}

/// The part of a conversion that asks the default input-method window, in a run that goes on from
/// there. Returns where it ends and what went wrong.
proof fn lemma_window_part(
    hwnd: usize,
    mode: ImeMode,
    log: Seq<Exchange>,
    channel: Option<Channel>,
) -> (end: (int, Option<Warning>))
    requires
        convert::apply_default(hwnd, mode).runs(log, channel),
    ensures
        window_tried(hwnd, mode, log, 0, end.0, end.1),
        end.1 is None ==> end.0 == log.len() && channel == Some(Channel::DefImeWnd),
        end.1 matches Some(warning) ==> convert::apply_warn(mode, warning).runs(
            log.skip(end.0),
            channel,
        ),
{
    let (n, found) = script::lemma_runs_split(
        defime::get_mode_script(hwnd),
        convert::apply_read(hwnd, mode),
        log,
        channel,
    );
    let first = log.take(n);
    let rest = log.skip(n);
    match found {
        Some(old) => {
            let (m, accepted) = script::lemma_runs_split(
                defime::set_mode_script(hwnd, mode.pinned(old) as u32),
                convert::apply_written(mode),
                rest,
                channel,
            );
            let both = log.take(n + m);
            assert(both.take(n) =~= first);
            assert(both.skip(n) =~= rest.take(m));
            lemma_window_tried(hwnd, mode, both, n, old, accepted);
            let warning = if accepted {
                None
            } else {
                Some(Warning::DefImeRejected)
            };
            lemma_window_prefix(hwnd, mode, log, n + m, warning);
            assert(log.skip(n + m) =~= rest.skip(m));
            (n + m, warning)
        },
        None => {
            law_window_is_read(hwnd, first, None);
            assert(log[0] == first[0]);
            (n, Some(Warning::DefImeUnavailable))
        },
    }
}

/// What holds of a prefix of a log holds in the log.
proof fn lemma_window_prefix(
    hwnd: usize,
    mode: ImeMode,
    log: Seq<Exchange>,
    m: int,
    warning: Option<Warning>,
)
    requires
        0 <= m <= log.len(),
        window_tried(hwnd, mode, log.take(m), 0, m, warning),
    ensures
        window_tried(hwnd, mode, log, 0, m, warning),
{
    let part = log.take(m);
    assert(forall|i: int| 0 <= i < m ==> #[trigger] log[i] == part[i - 0]);
    lemma_window_shift(hwnd, mode, part, m, warning, log, 0);
}

/// Pinning the conversion mode tries the input context, then the default input-method window,
/// then, for Chinese, a tap of Shift, and goes on to the next channel whenever one does not take
/// the mode, whatever the answers to the warnings in between are. It returns the channel that
/// worked, or none if none did. Returns where its parts end.
pub proof fn law_conversion_course(
    hwnd: usize,
    mode: ImeMode,
    log: Seq<Exchange>,
    channel: Option<Channel>,
) -> (parts: ConversionParts)
    requires
        convert::apply_script(hwnd, mode).runs(log, channel),
    ensures
        conversion(hwnd, mode, log, channel, parts),
{
    reveal_with_fuel(Script::runs, 6);
    let l1 = log.drop_first();
    let l2 = l1.drop_first();
    let l3 = l2.drop_first();
    let a: int = if log[0].reply->Handle_0 == 0 {
        1
    } else if l1[0].reply->Status_0 is None {
        3
    } else {
        4
    };
    if a > 1 {
        assert(log[1] == l1[0]);
        assert(log[2] == l2[0]);
    }
    if a > 3 {
        assert(log[3] == l3[0]);
        law_pin_in_bits(mode, (log[1].reply->Status_0->0).0);
    }
    let taken = a == 4 && log[2].reply->Flag_0;
    assert(context_tried(hwnd, mode, log, 0, a, taken));
    let rest = log.skip(a);
    assert(a == 1 ==> rest =~= l1);
    assert(a == 3 ==> rest =~= l3);
    assert(a == 4 ==> rest =~= l3.drop_first());
    if taken {
        ConversionParts { context: a, window: a, warning: None, warned: a, tapped: a }
    } else {
        lemma_later_channels(hwnd, mode, log, a, channel)
    }
}

/// The part of a conversion from the default input-method window on.
proof fn lemma_later_channels(
    hwnd: usize,
    mode: ImeMode,
    log: Seq<Exchange>,
    a: int,
    channel: Option<Channel>,
) -> (parts: ConversionParts)
    requires
        0 <= a <= log.len(),
        convert::apply_default(hwnd, mode).runs(log.skip(a), channel),
    ensures
        channel != Some(Channel::Imm32),
        parts.context == a,
        later_channels(hwnd, mode, log, channel, parts),
{
    let rest = log.skip(a);
    let (b, warning) = lemma_window_part(hwnd, mode, rest, channel);
    assert(forall|i: int| a <= i < log.len() ==> #[trigger] log[i] == rest[i - a]);
    lemma_window_shift(hwnd, mode, rest, b, warning, log, a);
    match warning {
        Some(problem) => {
            let end = rest.skip(b);
            let (c, d) = lemma_warned_channel(mode, problem, end, channel);
            assert(end =~= log.skip(a + b));
            assert(log.subrange(a + b, a + b + c) =~= end.take(c));
            lemma_last_shift(mode, end, channel, c, d, log, a + b);
            ConversionParts {
                context: a,
                window: a + b,
                warning,
                warned: a + b + c,
                tapped: a + b + d,
            }
        },
        None => ConversionParts {
            context: a,
            window: a + b,
            warning,
            warned: a + b,
            tapped: a + b,
        },
    }
}

/// Whether no write of a conversion mode succeeds in a log but for a tap of Shift.
pub open spec fn unwritten(log: Seq<Exchange>) -> bool {
    forall|i: int|
        0 <= i < log.len() ==> !((#[trigger] log[i]).call is SetConversionStatus
            && log[i].reply->Flag_0) && !(log[i].call is ImeControl && log[i].call->command == 6
            && log[i].reply->Word_0 != 0)
}

/// For Chinese Shift is tapped whenever nothing else took the conversion mode: the modifier keys
/// are asked for from the exchange with index `n` on, up to the first that is down. If all are
/// up, Shift is sent after the last of them, whatever the answers to the warnings are, and the
/// channel is the tap of Shift exactly if both its events were taken.
pub proof fn law_shift_must_be_tapped(
    hwnd: usize,
    log: Seq<Exchange>,
    channel: Option<Channel>,
) -> (keys: (int, int))
    requires
        convert::apply_script(hwnd, ImeMode::ChineseOnly).runs(log, channel),
        unwritten(log),
    ensures
        modifiers_asked(log, keys.0, keys.1, log[keys.1 - 1].reply->Key_0 < 0),
        log[keys.1 - 1].reply->Key_0 < 0 ==> channel is None,
        log[keys.1 - 1].reply->Key_0 >= 0 ==> {
            &&& keys.1 == keys.0 + 11
            &&& keys.1 < log.len()
            &&& log[keys.1].call == shift_press()
            &&& channel == Some(Channel::ShiftTap) <==> log[keys.1].reply->Injected_0 == 2
            &&& channel is None <==> log[keys.1].reply->Injected_0 != 2
        },
{
    let parts = law_conversion_course(hwnd, ImeMode::ChineseOnly, log, channel);
    assert(channel != Some(Channel::Imm32)) by {
        if channel == Some(Channel::Imm32) {
            assert(log[2].call is SetConversionStatus);
        }
    }
    assert(channel != Some(Channel::DefImeWnd)) by {
        if channel == Some(Channel::DefImeWnd) {
            assert(log[parts.context + 4].call is ImeControl);
        }
    }
    let tap = log.subrange(parts.warned, parts.tapped);
    let n = law_tap_course(tap, channel == Some(Channel::ShiftTap));
    let c = parts.warned;
    assert(forall|i: int| c <= i < c + tap.len() ==> #[trigger] log[i] == tap[i - c]);
    assert(log[c + n - 1] == tap[n - 1]);
    assert forall|i: int| c <= i < c + n implies #[trigger] log[i].call == Call::KeyState(
        modifier_codes()[i - c],
    ) by {
        assert(tap[i - c].call == Call::KeyState(modifier_codes()[i - c - 0]));
    }
    if tap[n - 1].reply->Key_0 >= 0 {
        assert(log[c + 11] == tap[11]);
    }
    (c, c + n)
}

/// How many layouts a call stored in its buffer of `length` entries: as many as it says, but no
/// fewer than none and no more than there is room for.
pub open spec fn stored_count(count: i32, length: nat) -> int {
    if count < 0 {
        0
    } else if count > length {
        length as int
    } else {
        count as int
    }
}

/// Whether a layout belongs to a language, which it names in its low word.
pub open spec fn speaks(hkl: usize, language: usize) -> bool {
    hkl % 0x1_0000 == language
}

/// Whether `hkl` is the first of the first `count` layouts of a list that belongs to a language,
/// and that has a high word other than zero if `method` asks for one.
pub open spec fn is_first(
    hkl: usize,
    list: Seq<usize>,
    count: int,
    language: usize,
    method: bool,
) -> bool {
    exists|i: int|
        {
            &&& 0 <= i < count
            &&& #[trigger] list[i] == hkl
            &&& speaks(hkl, language)
            &&& method ==> hkl / 0x1_0000 != 0
            &&& forall|j: int|
                0 <= j < i ==> !(speaks(#[trigger] list[j], language) && (method ==> list[j]
                    / 0x1_0000 != 0))
        }
}

/// Whether one of the first `count` layouts of a list belongs to a language, and has a high word
/// other than zero if `method` asks for one.
pub open spec fn has_layout(list: Seq<usize>, count: int, language: usize, method: bool) -> bool {
    exists|i: int|
        0 <= i < count && speaks(#[trigger] list[i], language) && (method ==> list[i] / 0x1_0000
            != 0)
}

/// Whether `hkl` is the layout to use for a language out of the first `count` of a list: the first
/// one with a high word other than zero, or else the first one, or else the bare language.
pub open spec fn is_choice(hkl: usize, list: Seq<usize>, count: int, language: usize) -> bool {
    &&& has_layout(list, count, language, true) ==> is_first(hkl, list, count, language, true)
    &&& !has_layout(list, count, language, true) && has_layout(list, count, language, false)
        ==> is_first(hkl, list, count, language, false)
    &&& !has_layout(list, count, language, false) ==> hkl == language
}

/// What a filter finds first is the first that it lets through.
proof fn lemma_filter_first(layouts: Seq<usize>, pred: spec_fn(usize) -> bool) -> (at: int)
    ensures
        layouts.filter(pred).len() > 0 ==> {
            &&& 0 <= at < layouts.len()
            &&& layouts[at] == layouts.filter(pred)[0]
            &&& pred(layouts[at])
            &&& forall|j: int| 0 <= j < at ==> !pred(#[trigger] layouts[j])
        },
        layouts.filter(pred).len() == 0 ==> forall|j: int|
            0 <= j < layouts.len() ==> !pred(#[trigger] layouts[j]),
    decreases layouts.len(),
{
    reveal(Seq::filter);
    if layouts.len() == 0 {
        0
    } else {
        let before = layouts.drop_last();
        let at = lemma_filter_first(before, pred);
        assert(forall|j: int| 0 <= j < before.len() ==> #[trigger] before[j] == layouts[j]);
        if before.filter(pred).len() > 0 {
            assert(layouts.filter(pred)[0] == before.filter(pred)[0]);
            assert forall|j: int| 0 <= j < at implies !pred(#[trigger] layouts[j]) by {
                assert(!pred(before[j]));
            }
            assert(layouts[at] == before[at]);
            at
        } else {
            assert forall|j: int| 0 <= j < layouts.len() - 1 implies !pred(
                #[trigger] layouts[j],
            ) by {
                assert(!pred(before[j]));
            }
            layouts.len() - 1
        }
    }
}

/// The layout that is picked for a language out of what a call stored is the first input method of
/// the language, or else the first layout of the language, or else the bare language.
pub proof fn law_choice_of_layout(language: usize, count: i32, buffer: Seq<usize>)
    ensures
        layout::stored(count, buffer).len() == stored_count(count, buffer.len()),
        forall|i: int|
            0 <= i < stored_count(count, buffer.len()) ==> #[trigger] layout::stored(
                count,
                buffer,
            )[i] == buffer[i],
        is_choice(
            layout::preferred(language, layout::stored(count, buffer)),
            buffer,
            stored_count(count, buffer.len()),
            language,
        ),
{
    let layouts = layout::stored(count, buffer);
    let n = stored_count(count, buffer.len());
    let methods = layout::ime_of_language(language);
    let all = layout::of_language(language);
    let hkl = layout::preferred(language, layouts);
    let a = lemma_filter_first(layouts, methods);
    let b = lemma_filter_first(layouts, all);
    assert(forall|i: int| 0 <= i < n ==> #[trigger] layouts[i] == buffer[i]);
    assert forall|i: int| 0 <= i < n implies methods(#[trigger] buffer[i]) == (speaks(
        buffer[i],
        language,
    ) && buffer[i] / 0x1_0000 != 0) && all(buffer[i]) == speaks(buffer[i], language) by {}
    if layouts.filter(methods).len() > 0 {
        assert(buffer[a] == hkl);
        assert forall|j: int| 0 <= j < a implies !(speaks(#[trigger] buffer[j], language) && buffer[j]
            / 0x1_0000 != 0) by {
            assert(!methods(layouts[j]));
        }
        assert(is_first(hkl, buffer, n, language, true));
    } else {
        assert forall|j: int| 0 <= j < n implies !(speaks(#[trigger] buffer[j], language) && buffer[j]
            / 0x1_0000 != 0) by {
            assert(!methods(layouts[j]));
        }
        if layouts.filter(all).len() > 0 {
            assert(buffer[b] == hkl);
            assert forall|j: int| 0 <= j < b implies !speaks(#[trigger] buffer[j], language) by {
                assert(!all(layouts[j]));
            }
            assert(is_first(hkl, buffer, n, language, false));
        } else {
            assert forall|j: int| 0 <= j < n implies !speaks(#[trigger] buffer[j], language) by {
                assert(!all(layouts[j]));
            }
        }
    }
}

/// The language of a mode: Simplified Chinese or English.
pub open spec fn wanted_language(mode: ImeMode) -> usize {
    if mode is ChineseOnly {
        0x0804
    } else {
        0x0409
    }
}

/// The layout to activate is looked for among all that are installed: their number is asked for,
/// and unless it is not positive, all of them are listed and one of them is picked.
pub proof fn law_resolve_course(mode: ImeMode, log: Seq<Exchange>, hkl: usize)
    requires
        layout::resolve_script(mode).runs(log, hkl),
    ensures
        log.len() > 0,
        log[0].call == Call::LayoutCount,
        log[0].reply->Total_0 <= 0 ==> log.len() == 1 && hkl == wanted_language(mode),
        log[0].reply->Total_0 > 0 ==> {
            &&& log.len() == 2
            &&& log[1].call == Call::LayoutList(log[0].reply->Total_0 as usize)
            &&& is_choice(
                hkl,
                log[1].reply->Layouts_1@,
                stored_count(log[1].reply->Layouts_0, log[1].reply->Layouts_1@.len()),
                wanted_language(mode),
            )
        },
{
    reveal_with_fuel(Script::runs, 4);
    let rest = log.drop_first();
    if rest.len() > 0 {
        assert(log[1] == rest[0]);
        law_choice_of_layout(
            wanted_language(mode),
            log[1].reply->Layouts_0,
            log[1].reply->Layouts_1@,
        );
    }
}

/// Whether a check reports a layout as it is, against the language of a mode.
pub open spec fn reports_layout(check: LayoutCheck, hkl: usize, mode: ImeMode) -> bool {
    &&& check.hkl == hkl
    &&& check.current == hkl % 0x1_0000
    &&& check.target == wanted_language(mode)
}

/// The check of the layout asks for the layout of its own thread, and reports it.
pub proof fn law_verify_course(mode: ImeMode, log: Seq<Exchange>, check: LayoutCheck)
    requires
        layout::verify_script(mode).runs(log, check),
    ensures
        log.len() == 1,
        log[0].call == Call::KeyboardLayout(0),
        reports_layout(check, log[0].reply->Handle_0, mode),
{
    reveal_with_fuel(Script::runs, 3);
}

/// Whether a log activates a layout as it must, from the exchange with index `n` on and up to the
/// one before `m`. The layout is activated for the whole process and announced. If it cannot be
/// activated, the one that is named after the language is loaded; if that gives one, it is
/// activated and, only if that works, announced.
pub open spec fn layout_activated(
    mode: ImeMode,
    hkl: usize,
    log: Seq<Exchange>,
    n: int,
    m: int,
) -> bool {
    &&& 0 <= n < m <= log.len()
    &&& log[n].call == Call::ActivateLayout(hkl, 0x109)
    &&& log[n].reply->Flag_0 ==> m == n + 2 && log[n + 1].call == (Call::Broadcast {
        message: 0x50,
        value: hkl as isize,
    })
    &&& !log[n].reply->Flag_0 ==> {
        &&& m >= n + 2
        &&& log[n + 1].call == Call::LoadLayout(mode, 1)
        &&& match log[n + 1].reply->Loaded_0 {
            Some(loaded) => if loaded == 0 {
                m == n + 2
            } else {
                &&& m >= n + 3
                &&& log[n + 2].call == Call::ActivateLayout(loaded, 1)
                &&& !log[n + 2].reply->Flag_0 ==> m == n + 3
                &&& log[n + 2].reply->Flag_0 ==> m == n + 4 && log[n + 3].call == (
                Call::Broadcast { message: 0x50, value: loaded as isize })
            },
            None => m == n + 2,
        }
    }
}

/// The part of an enforcement that activates the layout. Returns where it ends.
proof fn lemma_layout_activated(
    hwnd: usize,
    mode: ImeMode,
    hkl: usize,
    log: Seq<Exchange>,
    done: Enforcement,
) -> (m: int)
    requires
        enforce::enforce_activate(hwnd, mode, hkl).runs(log, done),
    ensures
        layout_activated(mode, hkl, log, 0, m),
        enforce::enforce_convert(hwnd, mode).runs(log.skip(m), done),
{
    reveal_with_fuel(Script::runs, 5);
    let l1 = log.drop_first();
    let l2 = l1.drop_first();
    let l3 = l2.drop_first();
    let l4 = l3.drop_first();
    assert(log[1] == l1[0]);
    let m: int = if log[0].reply->Flag_0 || l1[0].reply->Loaded_0 is None || l1[0].reply->Loaded_0->0
        == 0 {
        2
    } else if l2[0].reply->Flag_0 {
        4
    } else {
        3
    };
    if m > 2 {
        assert(log[2] == l2[0]);
    }
    if m > 3 {
        assert(log[3] == l3[0]);
    }
    assert(m == 2 ==> log.skip(m) =~= l2);
    assert(m == 3 ==> log.skip(m) =~= l3);
    assert(m == 4 ==> log.skip(m) =~= l4);
    m
}

/// Where the parts of an enforcement end: the search for the layout, its activation and the pinning
/// of the conversion mode; and the layout that was found.
pub struct EnforcementParts {
    /// The end of the search for the layout.
    pub resolved: int,
    /// The layout that was found.
    pub hkl: usize,
    /// The end of its activation.
    pub activated: int,
    /// The end of the pinning of the conversion mode.
    pub converted: int,
}

/// Whether a log enforces a mode on `hwnd` as it must: it looks for the layout, activates it, pins
/// the conversion mode of the window in a whole run whose result it reports, announces a change of
/// settings, and looks at the layout of its own thread, which it reports too. No part is ever left
/// out, whatever the others come to and whatever the mode is.
pub open spec fn enforcement(
    hwnd: usize,
    mode: ImeMode,
    log: Seq<Exchange>,
    done: Enforcement,
    parts: EnforcementParts,
) -> bool {
    &&& 0 < parts.resolved < parts.activated < parts.converted
    &&& parts.converted + 2 == log.len()
    &&& layout::resolve_script(mode).runs(log.take(parts.resolved), parts.hkl)
    &&& layout_activated(mode, parts.hkl, log, parts.resolved, parts.activated)
    &&& convert::apply_script(hwnd, mode).runs(
        log.subrange(parts.activated, parts.converted),
        done.channel,
    )
    &&& log[parts.converted].call == (Call::Broadcast { message: 0x1A, value: 0 })
    &&& log[parts.converted + 1].call == Call::KeyboardLayout(0)
    &&& reports_layout(done.check, log[parts.converted + 1].reply->Handle_0, mode)
}

/// An enforcement goes through all its parts, in order. Returns where they end.
#[verifier::rlimit(40)]
pub proof fn law_enforcement_course(
    hwnd: usize,
    mode: ImeMode,
    log: Seq<Exchange>,
    done: Enforcement,
) -> (parts: EnforcementParts)
    requires
        enforce::enforce_script(hwnd, mode).runs(log, done),
    ensures
        enforcement(hwnd, mode, log, done, parts),
{
    let (n, hkl) = script::lemma_runs_split(
        layout::resolve_script(mode),
        enforce::enforce_resolved(hwnd, mode),
        log,
        done,
    );
    law_resolve_course(mode, log.take(n), hkl);
    let rest = log.skip(n);
    let m = lemma_layout_activated(hwnd, mode, hkl, rest, done);
    assert(forall|i: int| n <= i < log.len() ==> #[trigger] log[i] == rest[i - n]);
    lemma_activation_shift(mode, hkl, rest, m, log, n);
    let tail = rest.skip(m);
    let k = lemma_converted(hwnd, mode, tail, done);
    assert(log.subrange(n + m, n + m + k) =~= tail.take(k));
    assert(log[n + m + k] == tail[k]);
    assert(log[n + m + k + 1] == tail[k + 1]);
    EnforcementParts { resolved: n, hkl, activated: n + m, converted: n + m + k }
}

/// The part of an enforcement after the layout. Returns where the pinning of the conversion mode
/// ends.
proof fn lemma_converted(hwnd: usize, mode: ImeMode, log: Seq<Exchange>, done: Enforcement) -> (k:
    int)
    requires
        enforce::enforce_convert(hwnd, mode).runs(log, done),
    ensures
        0 < k,
        k + 2 == log.len(),
        convert::apply_script(hwnd, mode).runs(log.take(k), done.channel),
        log[k].call == (Call::Broadcast { message: 0x1A, value: 0 }),
        log[k + 1].call == Call::KeyboardLayout(0),
        reports_layout(done.check, log[k + 1].reply->Handle_0, mode),
{
    let (k, channel) = script::lemma_runs_split(
        convert::apply_script(hwnd, mode),
        enforce::enforce_converted(mode),
        log,
        done,
    );
    let end = log.skip(k);
    lemma_enforcement_ends(mode, channel, end, done);
    assert(log[k] == end[0]);
    assert(log[k + 1] == end[1]);
    k
}

/// An activation in a longer log.
proof fn lemma_activation_shift(
    mode: ImeMode,
    hkl: usize,
    part: Seq<Exchange>,
    m: int,
    log: Seq<Exchange>,
    n: int,
)
    requires
        layout_activated(mode, hkl, part, 0, m),
        0 <= n,
        n + part.len() <= log.len(),
        forall|i: int| n <= i < n + part.len() ==> #[trigger] log[i] == part[i - n],
    ensures
        layout_activated(mode, hkl, log, n, n + m),
{
    assert(log[n] == part[0]);
    assert(log[n + 1] == part[1]);
    if m > 2 {
        assert(log[n + 2] == part[2]);
    }
    if m > 3 {
        assert(log[n + 3] == part[3]);
    }
}

/// The end of an enforcement.
proof fn lemma_enforcement_ends(
    mode: ImeMode,
    channel: Option<Channel>,
    log: Seq<Exchange>,
    done: Enforcement,
)
    requires
        enforce::enforce_finish(mode, channel).runs(log, done),
    ensures
        log.len() == 2,
        log[0].call == (Call::Broadcast { message: 0x1A, value: 0 }),
        log[1].call == Call::KeyboardLayout(0),
        done.channel == channel,
        reports_layout(done.check, log[1].reply->Handle_0, mode),
{
    reveal_with_fuel(Script::runs, 2);
    let rest = log.drop_first();
    let (n, check) = script::lemma_runs_split(
        layout::verify_script(mode),
        enforce::enforce_verified(channel),
        rest,
        done,
    );
    assert(rest.take(n) =~= rest);
    law_verify_course(mode, rest, check);
    assert(log[1] == rest[0]);
}

/// For either mode an enforcement asks for the input context of the window once the layout was
/// dealt with, and a status that it reads there it writes back with the lowest bit as the mode
/// wants it; if that is taken, the input context is the channel that it reports. Returns where it
/// asks.
pub proof fn law_enforcement_pins_the_mode(
    hwnd: usize,
    mode: ImeMode,
    log: Seq<Exchange>,
    done: Enforcement,
) -> (at: int)
    requires
        enforce::enforce_script(hwnd, mode).runs(log, done),
    ensures
        0 < at < log.len() - 2,
        forall|i: int|
            at <= i < log.len() - 2 ==> !((#[trigger] log[i]).call is ActivateLayout) && !(
            log[i].call is LoadLayout) && !(log[i].call is Broadcast),
        log[at].call == Call::GetContext(hwnd),
        log[at].reply->Handle_0 != 0 ==> log[at + 1].call == Call::GetConversionStatus(
            log[at].reply->Handle_0,
        ),
        log[at].reply->Handle_0 != 0 && log[at + 1].reply->Status_0 is Some ==> {
            let (cmode, smode) = log[at + 1].reply->Status_0->0;
            &&& log[at + 2].call == Call::SetConversionStatus(
                log[at].reply->Handle_0,
                with_native(mode, cmode),
                smode,
            )
            &&& log[at + 2].reply->Flag_0 <==> done.channel == Some(Channel::Imm32)
        },
        log[at].reply->Handle_0 == 0 || log[at + 1].reply->Status_0 is None
            ==> done.channel != Some(Channel::Imm32),
{
    let parts = law_enforcement_course(hwnd, mode, log, done);
    let at = parts.activated;
    let part = log.subrange(at, parts.converted);
    let _ = law_conversion_course(hwnd, mode, part, done.channel);
    laws::law_conversion_leaves_layouts(hwnd, mode, part, done.channel);
    assert forall|i: int| at <= i < log.len() - 2 implies !((#[trigger] log[i]).call
        is ActivateLayout) && !(log[i].call is LoadLayout) && !(log[i].call is Broadcast) by {
        assert(log[i] == part[i - at]);
    }
    assert(log[at] == part[0]);
    if part.len() > 1 {
        assert(log[at + 1] == part[1]);
    }
    if part.len() > 2 {
        assert(log[at + 2] == part[2]);
    }
    at
}

/// A window that comes to the foreground is ignored exactly if it was handled last, less than
/// half a second ago by the clock. Otherwise the event is remembered with its time and the
/// settings are read. If the tool is switched off that is all. If it is switched on, the window
/// is always corrected under the mode of the settings, after a tenth of a second.
pub proof fn law_foreground_course(hwnd: usize, log: Seq<Exchange>, outcome: Outcome)
    requires
        watch::foreground_script(hwnd).runs(log, outcome),
    ensures
        log.len() >= 2,
        log[0].call == Call::ReadClock,
        log[1].call == Call::LoadLastEvent,
        ({
            let now = millis(log[0].reply);
            let last = log[1].reply->Event_0;
            &&& hwnd == last.hwnd && now < last.ms + 500 ==> log.len() == 2 && outcome
                == Outcome::Debounced
            &&& hwnd != last.hwnd || now >= last.ms + 500 ==> {
                &&& outcome != Outcome::Debounced
                &&& log.len() >= 4
                &&& log[2].call == Call::StoreLastEvent(LastEvent { hwnd, ms: now as u64 })
                &&& log[3].call == Call::ReadConfig
                &&& !log[3].reply->Settings_0.master_switch ==> log.len() == 4 && outcome
                    == Outcome::SwitchedOff
                &&& log[3].reply->Settings_0.master_switch ==> {
                    &&& log.len() >= 5
                    &&& log[4].call == Call::Settle(100)
                    &&& watch::correct_script(hwnd, log[3].reply->Settings_0.ime_mode).runs(
                        log.skip(5),
                        outcome,
                    )
                }
            }
        }),
{
    laws::law_foreground_event(hwnd, log, outcome);
    law_clock_reading(log[0].reply->Clock_0);
    law_debounce_goes_by_distance(
        log[1].reply->Event_0,
        LastEvent { hwnd, ms: millis(log[0].reply) as u64 },
    );
    if log.len() > 4 {
        laws::law_correction_follows_detection(
            hwnd,
            log[3].reply->Settings_0.ime_mode,
            log.skip(5),
            outcome,
        );
    }
}

/// A tick of the timer reads the settings. If the tool is switched off that is all. If it is
/// switched on, the foreground window is asked for, and it is always corrected under the mode of
/// the settings, unless there is none.
pub proof fn law_timer_course(log: Seq<Exchange>, outcome: Outcome)
    requires
        watch::timer_script().runs(log, outcome),
    ensures
        log.len() >= 1,
        log[0].call == Call::ReadConfig,
        !log[0].reply->Settings_0.master_switch ==> log.len() == 1 && outcome
            == Outcome::SwitchedOff,
        log[0].reply->Settings_0.master_switch ==> {
            &&& log.len() >= 2
            &&& log[1].call == Call::ForegroundWindow
            &&& log[1].reply->Handle_0 == 0 ==> log.len() == 2 && outcome == Outcome::NoWindow
            &&& log[1].reply->Handle_0 != 0 ==> watch::correct_script(
                log[1].reply->Handle_0,
                log[0].reply->Settings_0.ime_mode,
            ).runs(log.skip(2), outcome)
        },
{
    reveal_with_fuel(Script::runs, 3);
    let rest = log.drop_first();
    if log[0].reply->Settings_0.master_switch {
        assert(log[1] == rest[0]);
        assert(log.skip(2) =~= rest.drop_first());
    }
}

/// A correction detects whether the window matches. If it does, that is all; if it does not, the
/// mode is always enforced on the same window, and the outcome says what that came to. Returns
/// where the detection ends, and its verdict.
pub proof fn law_correction_course(
    hwnd: usize,
    mode: ImeMode,
    log: Seq<Exchange>,
    outcome: Outcome,
) -> (detected: (int, bool))
    requires
        watch::correct_script(hwnd, mode).runs(log, outcome),
    ensures
        0 <= detected.0 <= log.len(),
        detect::matching_script(hwnd, mode).runs(log.take(detected.0), detected.1),
        detected.1 ==> detected.0 == log.len() && outcome == Outcome::Matched,
        !detected.1 ==> outcome is Enforced && enforce::enforce_script(hwnd, mode).runs(
            log.skip(detected.0),
            outcome->Enforced_0,
        ),
{
    let (n, matches) = script::lemma_runs_split(
        detect::matching_script(hwnd, mode),
        watch::correct_detected(hwnd, mode),
        log,
        outcome,
    );
    if !matches {
        let rest = log.skip(n);
        let (m, done) = script::lemma_runs_split(
            enforce::enforce_script(hwnd, mode),
            watch::correct_enforced(),
            rest,
            outcome,
        );
        assert(rest.take(m) =~= rest);
    }
    (n, matches)
}

/// A window with a Chinese keyboard whose conversion mode is even is corrected under Chinese,
/// through whichever channel the mode was read; nothing keeps it from being enforced.
pub proof fn law_english_sub_mode_is_corrected(
    hwnd: usize,
    log: Seq<Exchange>,
    outcome: Outcome,
    n: int,
    cmode: u32,
    source: Channel,
)
    requires
        watch::correct_script(hwnd, ImeMode::ChineseOnly).runs(log, outcome),
        log[1].reply->Handle_0 % 0x1_0000 == 0x0804,
        mode_query(hwnd, log, 2, n, Some((cmode, source))),
        cmode % 2 == 0,
    ensures
        outcome is Enforced,
{
    let (m, matches) = law_correction_course(hwnd, ImeMode::ChineseOnly, log, outcome);
    let part = log.take(m);
    law_detection_by_keyboard(hwnd, ImeMode::ChineseOnly, part, matches);
    assert(log[1] == part[1]);
    let (k, found) = law_detection_by_mode(hwnd, part, matches);
    assert(forall|i: int| 0 <= i < m ==> #[trigger] log[i] == part[i]);
    assert(log[2] == part[2]);
    if matches {
        assert(part =~= log);
        assert(log[3] == part[3]);
    }
    assert(!matches) by {
        if matches {
            lemma_queries_agree(hwnd, log, 2, n, Some((cmode, source)), k, found);
        }
    }
}

/// A log reads one conversion mode at one place.
proof fn lemma_queries_agree(
    hwnd: usize,
    log: Seq<Exchange>,
    n: int,
    a: int,
    first: Option<(u32, Channel)>,
    b: int,
    second: Option<(u32, Channel)>,
)
    requires
        mode_query(hwnd, log, n, a, first),
        mode_query(hwnd, log, n, b, second),
    ensures
        a == b,
        first == second,
{
}

/// What a hot key stands for goes by the low 32 bits of its identifier: the toggle key first, then
/// the other one, and nothing else.
pub proof fn law_meaning_of_hotkeys(ids: HotkeyIds, wparam: usize)
    ensures
        wparam as i32 == ids.toggle ==> ids.meaning(wparam) == Some(HotkeyAction::Toggle),
        wparam as i32 != ids.toggle && wparam as i32 == ids.switch_mode ==> ids.meaning(wparam)
            == Some(HotkeyAction::SwitchMode),
        wparam as i32 != ids.toggle && wparam as i32 != ids.switch_mode ==> ids.meaning(wparam)
            is None,
{
}

/// Flipping the switch changes the switch alone, and switching the mode changes the mode alone;
/// either one twice changes nothing.
pub proof fn law_settings_change_alone(config: Config)
    ensures
        config.flipped().master_switch != config.master_switch,
        config.flipped().ime_mode == config.ime_mode,
        config.flipped().show_notifications == config.show_notifications,
        config.switched().ime_mode != config.ime_mode,
        config.switched().master_switch == config.master_switch,
        config.switched().show_notifications == config.show_notifications,
        config.flipped().flipped() == config,
        config.switched().switched() == config,
{
}

/// Every call takes every answer of its kind, and no other.
pub proof fn law_answers_fit_calls(call: Call, reply: Reply)
    ensures
        call is ReadClock ==> (call.takes(reply) <==> reply is Clock),
        call is LoadLastEvent ==> (call.takes(reply) <==> reply is Event),
        call is LoadStamp ==> (call.takes(reply) <==> reply is Stamp),
        call is ReadConfig || call is LockConfig ==> (call.takes(reply) <==> reply is Settings),
        call is ForegroundWindow || call is KeyboardLayout || call is GetContext || call
            is DefaultImeWindow ==> (call.takes(reply) <==> reply is Handle),
        call is WindowThread ==> (call.takes(reply) <==> reply is Thread),
        call is GetConversionStatus ==> (call.takes(reply) <==> reply is Status),
        call is ExchangeStamp || call is SetConversionStatus || call is ActivateLayout ==> (
        call.takes(reply) <==> reply is Flag),
        call is ImeControl ==> (call.takes(reply) <==> reply is Word),
        call is KeyState ==> (call.takes(reply) <==> reply is Key),
        call is SendInput ==> (call.takes(reply) <==> reply is Injected),
        call is LayoutCount ==> (call.takes(reply) <==> reply is Total),
        call is LayoutList ==> (call.takes(reply) <==> reply is Layouts),
        call is LoadLayout ==> (call.takes(reply) <==> reply is Loaded),
        call is StoreLastEvent || call is DescribeWindow || call is WriteWarning || call
            is StoreConfig || call is Settle || call is ReleaseContext || call is Broadcast || call
            is UpdateTrayIcon || call is ShowBalloon || call is ApplySetting ==> (call.takes(reply)
            <==> reply is Done),
{
}

} // verus!

//! What holds of every run of the procedures.

use vstd::prelude::*;

use crate::call::{
    Call, Channel, Warning, IMC_GETCONVERSIONMODE, IMC_SETCONVERSIONMODE, KLF_ACTIVATE,
    KLF_ACTIVATE_EVERYWHERE, WM_INPUTLANGCHANGEREQUEST, WM_SETTINGCHANGE,
};
use crate::clock;
use crate::convert;
use crate::defime;
use crate::detect;
use crate::enforce;
use crate::enforce::{Enforcement, LayoutFailure};
use crate::hotkey;
use crate::hotkey::{HotkeyAction, HotkeyIds};
use crate::layout;
use crate::mode;
use crate::mode::{ImeMode, LANG_CHINESE, LANG_ENGLISH};
use crate::script;
use crate::script::{Exchange, Script};
use crate::shift;
use crate::watch;
use crate::watch::Outcome;

verus! {

/// Whether no call of a log alters the input state that the user works with.
pub open spec fn quiet(log: Seq<Exchange>) -> bool {
    forall|i: int| 0 <= i < log.len() ==> !(#[trigger] log[i]).call.alters_input()
}

/// Whether a log deals with input contexts as it must when it starts with the context `held`, a
/// window and its context, or with none: it takes a context only when it holds none, uses only
/// the one that it holds, gives that one back for the same window, and ends with none.
pub open spec fn contexts_returned(log: Seq<Exchange>, held: Option<(usize, usize)>) -> bool
    decreases log.len(),
{
    if log.len() == 0 {
        held is None
    } else {
        let rest = log.drop_first();
        match log[0].call {
            Call::GetContext(hwnd) => {
                &&& held is None
                &&& contexts_returned(
                    rest,
                    if log[0].reply->Handle_0 == 0 {
                        None
                    } else {
                        Some((hwnd, log[0].reply->Handle_0))
                    },
                )
            },
            Call::GetConversionStatus(himc) | Call::SetConversionStatus(himc, _, _) => {
                &&& held is Some
                &&& (held->0).1 == himc
                &&& contexts_returned(rest, held)
            },
            Call::ReleaseContext(hwnd, himc) => {
                &&& held == Some((hwnd, himc))
                &&& contexts_returned(rest, None)
            },
            _ => contexts_returned(rest, held),
        }
    }
}

/// Contexts are dealt with properly in two logs in a row if they are in each.
proof fn lemma_contexts_join(log: Seq<Exchange>, n: int, held: Option<(usize, usize)>)
    requires
        0 <= n <= log.len(),
        contexts_returned(log.take(n), held),
        contexts_returned(log.skip(n), None),
    ensures
        contexts_returned(log, held),
    decreases n,
{
    if n == 0 {
        assert(log.skip(0) =~= log);
    } else {
        let rest = log.drop_first();
        assert(log.take(n).drop_first() =~= rest.take(n - 1));
        assert(log.skip(n) =~= rest.skip(n - 1));
        let next = match log[0].call {
            Call::GetContext(hwnd) => if log[0].reply->Handle_0 == 0 {
                None
            } else {
                Some((hwnd, log[0].reply->Handle_0))
            },
            Call::ReleaseContext(_, _) => None,
            _ => held,
        };
        lemma_contexts_join(rest, n - 1, next);
    }
}

/// Nothing is altered in two logs in a row if it is in neither.
proof fn lemma_quiet_join(log: Seq<Exchange>, n: int)
    requires
        0 <= n <= log.len(),
        quiet(log.take(n)),
        quiet(log.skip(n)),
    ensures
        quiet(log),
{
    assert forall|i: int| 0 <= i < log.len() implies !(#[trigger] log[i]).call.alters_input() by {
        if i < n {
            assert(log[i] == log.take(n)[i]);
        } else {
            assert(log[i] == log.skip(n)[i - n]);
        }
    }
}

/// Whether a log neither alters input nor leaves a context behind.
spec fn harmless(log: Seq<Exchange>) -> bool {
    quiet(log) && contexts_returned(log, None)
}

proof fn lemma_harmless_join(log: Seq<Exchange>, n: int)
    requires
        0 <= n <= log.len(),
        harmless(log.take(n)),
        harmless(log.skip(n)),
    ensures
        harmless(log),
{
    lemma_quiet_join(log, n);
    lemma_contexts_join(log, n, None);
}

/// A log is harmless if its first exchange is and the others are.
proof fn lemma_harmless_push(log: Seq<Exchange>)
    requires
        log.len() > 0,
        harmless(log.drop_first()),
        !log[0].call.alters_input(),
        !(log[0].call is GetContext),
        !(log[0].call is GetConversionStatus),
        !(log[0].call is ReleaseContext),
    ensures
        harmless(log),
{
    let rest = log.drop_first();
    assert forall|i: int| 0 <= i < log.len() implies !(#[trigger] log[i]).call.alters_input() by {
        if i > 0 {
            assert(log[i] == rest[i - 1]);
        }
    }
}

/// Whether a call only serves to report something.
spec fn reports(call: Call) -> bool {
    call is ReadClock || call is LoadStamp || call is ExchangeStamp || call is WriteWarning
        || call is DescribeWindow
}

/// Whether every call of a log only serves to report something.
spec fn reporting(log: Seq<Exchange>) -> bool {
    forall|i: int| 0 <= i < log.len() ==> reports((#[trigger] log[i]).call)
}

proof fn lemma_reporting_harmless(log: Seq<Exchange>)
    requires
        reporting(log),
    ensures
        harmless(log),
    decreases log.len(),
{
    if log.len() > 0 {
        assert(forall|i: int| 0 <= i < log.len() - 1 ==> #[trigger] log.drop_first()[i] == log[i
            + 1]);
        lemma_reporting_harmless(log.drop_first());
        lemma_harmless_push(log);
    }
}

proof fn lemma_warn(warning: Warning, log: Seq<Exchange>, written: bool)
    requires
        clock::warn_script(warning).runs(log, written),
    ensures
        reporting(log),
        harmless(log),
{
    reveal_with_fuel(Script::runs, 6);
    let l1 = log.drop_first();
    let l2 = l1.drop_first();
    assert(log[1] == l1[0]);
    if l2.len() > 0 {
        assert(log[2] == l2[0]);
        if l2.len() > 1 {
            assert(log[3] == l2.drop_first()[0]);
        }
    }
    lemma_reporting_harmless(log);
}

/// The conversion mode that an exchange reads, if it reads one.
pub open spec fn mode_read(exchange: Exchange) -> Option<u32> {
    match exchange.call {
        Call::GetConversionStatus(_) => match exchange.reply->Status_0 {
            Some((cmode, _)) => Some(cmode),
            None => None,
        },
        Call::ImeControl { command, .. } => if command == IMC_GETCONVERSIONMODE {
            Some(exchange.reply->Word_0 as u32)
        } else {
            None
        },
        _ => None,
    }
}

/// Whether `found` is the one conversion mode that a log reads, or none if it reads none.
spec fn reads_once(log: Seq<Exchange>, found: Option<u32>) -> bool {
    &&& forall|i: int|
        0 <= i < log.len() && mode_read(#[trigger] log[i]) is Some ==> mode_read(log[i]) == found
    &&& found is Some ==> exists|i: int| 0 <= i < log.len() && mode_read(#[trigger] log[i]) == found
}

/// Exchanges that read nothing may stand before those that read a mode.
proof fn lemma_reads_push(log: Seq<Exchange>, found: Option<u32>)
    requires
        log.len() > 0,
        mode_read(log[0]) is None,
        reads_once(log.drop_first(), found),
    ensures
        reads_once(log, found),
{
    let rest = log.drop_first();
    assert forall|i: int|
        0 <= i < log.len() && mode_read(#[trigger] log[i]) is Some implies mode_read(log[i])
        == found by {
        assert(log[i] == rest[i - 1]);
    }
    if found is Some {
        let i = choose|i: int| 0 <= i < rest.len() && mode_read(#[trigger] rest[i]) == found;
        assert(log[i + 1] == rest[i]);
    }
}

proof fn lemma_get_mode(hwnd: usize, log: Seq<Exchange>, found: Option<u32>)
    requires
        defime::get_mode_script(hwnd).runs(log, found),
    ensures
        harmless(log),
        reads_once(log, found),
        found is Some ==> log.len() == 2,
{
    reveal_with_fuel(Script::runs, 4);
    let l1 = log.drop_first();
    if l1.len() > 0 {
        lemma_harmless_push(l1);
        assert(mode_read(l1[0]) == found);
    }
    lemma_reads_push(log, found);
    lemma_harmless_push(log);
}

proof fn lemma_query_default(hwnd: usize, log: Seq<Exchange>, found: Option<(u32, Channel)>)
    requires
        detect::query_default(hwnd).runs(log, found),
    ensures
        harmless(log),
        found is None ==> reads_once(log, None),
        found matches Some((cmode, _)) ==> reads_once(log, Some(cmode)),
{
    reveal_with_fuel(Script::runs, 2);
    let (n, cmode) = script::lemma_runs_split(
        defime::get_mode_script(hwnd),
        detect::from_default(),
        log,
        found,
    );
    assert(log.take(n) =~= log);
    lemma_get_mode(hwnd, log, cmode);
}

proof fn lemma_query(hwnd: usize, log: Seq<Exchange>, found: Option<(u32, Channel)>)
    requires
        detect::query_script(hwnd).runs(log, found),
    ensures
        harmless(log),
        found is None ==> reads_once(log, None),
        found matches Some((cmode, _)) ==> reads_once(log, Some(cmode)),
{
    reveal_with_fuel(Script::runs, 5);
    reveal_with_fuel(contexts_returned, 5);
    let l1 = log.drop_first();
    let cmode = match found {
        Some((cmode, _)) => Some(cmode),
        None => None,
    };
    if log[0].reply->Handle_0 == 0 {
        lemma_query_default(hwnd, l1, found);
        lemma_reads_push(log, cmode);
    } else {
        let l2 = l1.drop_first();
        let l3 = l2.drop_first();
        assert(log[1] == l1[0]);
        assert(log[2] == l2[0]);
        assert(forall|i: int| 0 <= i < l3.len() ==> #[trigger] l3[i] == log[i + 3]);
        match l1[0].reply->Status_0 {
            Some((mode, _)) => {
                assert(l3.len() == 0);
                assert(mode_read(l1[0]) == cmode);
            },
            None => {
                lemma_query_default(hwnd, l3, found);
                lemma_reads_push(l2, cmode);
                lemma_reads_push(l1, cmode);
            },
        }
        lemma_reads_push(log, cmode);
    }
    assert forall|i: int| 0 <= i < log.len() implies !(#[trigger] log[i]).call.alters_input() by {
        if i > 0 && log[0].reply->Handle_0 == 0 {
            assert(log[i] == l1[i - 1]);
        } else if i == 2 {
            assert(log[i] == l1.drop_first()[0]);
        } else if i > 2 {
            assert(log[i] == l1.drop_first().drop_first()[i - 3]);
        }
    }
}

/// Whether an input method is in the mode that is wanted, by what a run of the detection learns:
/// under [`ImeMode::EnglishOnly`] by the language of the keyboard alone; under
/// [`ImeMode::ChineseOnly`] it is, unless the keyboard is Chinese and the conversion mode that
/// is read has its native bit clear. Where no conversion mode can be read, nothing speaks
/// against it. At most one conversion mode is read. The detection itself alters nothing and keeps
/// no context.
pub proof fn law_detection_verdict(
    hwnd: usize,
    mode: ImeMode,
    log: Seq<Exchange>,
    matches: bool,
)
    requires
        detect::matching_script(hwnd, mode).runs(log, matches),
    ensures
        log.len() >= 2,
        log[0].call == Call::WindowThread(hwnd),
        log[1].call == Call::KeyboardLayout(log[0].reply->Thread_0),
        mode is EnglishOnly ==> matches == (mode::language_of(log[1].reply->Handle_0)
            == LANG_ENGLISH),
        mode is ChineseOnly ==> matches == (mode::language_of(log[1].reply->Handle_0)
            != LANG_CHINESE || forall|i: int|
            0 <= i < log.len() && mode_read(#[trigger] log[i]) is Some ==> mode::native(
                mode_read(log[i])->0,
            )),
        forall|i: int, j: int|
            0 <= i < log.len() && 0 <= j < log.len() && mode_read(#[trigger] log[i]) is Some
                && mode_read(#[trigger] log[j]) is Some ==> mode_read(log[i]) == mode_read(log[j]),
        quiet(log),
        contexts_returned(log, None),
{
    reveal_with_fuel(Script::runs, 4);
    let l1 = log.drop_first();
    let l2 = l1.drop_first();
    assert(log[1] == l1[0]);
    assert(forall|i: int| 0 <= i < l2.len() ==> #[trigger] l2[i] == log[i + 2]);
    assert(forall|i: int| 2 <= i < log.len() ==> #[trigger] log[i] == l2[i - 2]);
    if mode is ChineseOnly && mode::language_of(log[1].reply->Handle_0) == LANG_CHINESE {
        let (n, found) = script::lemma_runs_split(
            detect::query_script(hwnd),
            detect::judged(hwnd),
            l2,
            matches,
        );
        let query = l2.take(n);
        let rest = l2.skip(n);
        lemma_query(hwnd, query, found);
        assert(forall|i: int| 0 <= i < n ==> #[trigger] query[i] == l2[i]);
        assert(forall|i: int| n <= i < l2.len() ==> #[trigger] l2[i] == rest[i - n]);
        match found {
            Some((cmode, source)) => if !mode::native(cmode) {
                lemma_mismatch(hwnd, source, cmode, rest, matches);
                let i = choose|i: int|
                    0 <= i < query.len() && mode_read(#[trigger] query[i]) == Some(cmode);
                assert(mode_read(log[i + 2]) == Some(cmode));
            },
            None => {},
        }
        assert(harmless(rest));
        lemma_harmless_join(l2, n);
        let cmode = match found {
            Some((cmode, _)) => Some(cmode),
            None => None,
        };
        assert forall|i: int|
            0 <= i < log.len() && mode_read(#[trigger] log[i]) is Some implies mode_read(log[i])
            == cmode by {
            assert(log[i] == l2[i - 2]);
            if i - 2 < n {
                assert(l2[i - 2] == query[i - 2]);
            } else {
                assert(reports(rest[i - 2 - n].call));
            }
        }
    }
    lemma_harmless_push(l1);
    lemma_harmless_push(log);
}

proof fn lemma_mismatch(
    hwnd: usize,
    source: Channel,
    cmode: u32,
    log: Seq<Exchange>,
    matches: bool,
)
    requires
        detect::mismatch_script(hwnd, source, cmode).runs(log, matches),
    ensures
        !matches,
        reporting(log),
        harmless(log),
{
    reveal_with_fuel(Script::runs, 2);
    let rest = log.drop_first();
    let warning = Warning::NotNative { source, cmode };
    let (n, written) = script::lemma_runs_split(
        clock::warn_script(warning),
        detect::mismatched(),
        rest,
        matches,
    );
    assert(rest.take(n) =~= rest);
    lemma_warn(warning, rest, written);
    assert forall|i: int| 0 <= i < log.len() implies reports((#[trigger] log[i]).call) by {
        if i > 0 {
            assert(log[i] == rest[i - 1]);
        }
    }
    lemma_reporting_harmless(log);
}

/// The channel through which an exchange writes a conversion mode, if it is taken.
pub open spec fn mode_taken(exchange: Exchange) -> Option<Channel> {
    match exchange.call {
        Call::SetConversionStatus(_, _, _) => if exchange.reply->Flag_0 {
            Some(Channel::Imm32)
        } else {
            None
        },
        Call::ImeControl { command, .. } => if command == IMC_SETCONVERSIONMODE
            && exchange.reply->Word_0 != 0 {
            Some(Channel::DefImeWnd)
        } else {
            None
        },
        Call::SendInput(_, _) => if exchange.reply->Injected_0 == 2 {
            Some(Channel::ShiftTap)
        } else {
            None
        },
        _ => None,
    }
}

/// Whether a call tries to write a conversion mode, or prepares it.
pub open spec fn writes_mode(call: Call) -> bool {
    match call {
        Call::SetConversionStatus(_, _, _) | Call::SendInput(_, _) => true,
        Call::ImeControl { command, .. } => command != IMC_GETCONVERSIONMODE,
        _ => false,
    }
}

/// Whether `channel` is the one through which a log writes the conversion mode: what is taken is
/// taken through it, and once it is, no other write is tried. With no channel nothing is taken.
pub open spec fn first_channel_wins(log: Seq<Exchange>, channel: Option<Channel>) -> bool {
    &&& forall|i: int|
        0 <= i < log.len() && mode_taken(#[trigger] log[i]) is Some ==> mode_taken(log[i])
            == channel
    &&& channel is Some ==> exists|i: int|
        0 <= i < log.len() && mode_taken(#[trigger] log[i]) == channel
    &&& forall|i: int, j: int|
        0 <= i < j < log.len() && mode_taken(#[trigger] log[i]) is Some ==> !writes_mode(
            (#[trigger] log[j]).call,
        )
}

/// Whether a key was found up before the exchange with index `i`.
pub open spec fn found_up(log: Seq<Exchange>, i: int, key: shift::ModifierKey) -> bool {
    exists|j: int|
        0 <= j < i && (#[trigger] log[j]).call == Call::KeyState(key.code()) && !shift::held(
            log[j].reply->Key_0,
        )
}

/// Whether a log taps Shift only for Chinese, only after it found every modifier key up, and
/// only once.
pub open spec fn shift_is_spared(mode: ImeMode, log: Seq<Exchange>) -> bool {
    &&& forall|i: int|
        0 <= i < log.len() && (#[trigger] log[i]).call is SendInput ==> mode is ChineseOnly
    &&& forall|i: int, key: shift::ModifierKey|
        0 <= i < log.len() && (#[trigger] log[i]).call is SendInput ==> #[trigger] found_up(
            log,
            i,
            key,
        )
    &&& forall|i: int, j: int|
        0 <= i < j < log.len() && (#[trigger] log[i]).call is SendInput ==> !((
        #[trigger] log[j]).call is SendInput)
}

/// Whether the value that the exchange with index `i` writes is the pinned value of one that was
/// read before through the same channel: from the same input context, with the sentence mode going
/// along unchanged, or from a default input-method window.
pub open spec fn pins_what_was_read(mode: ImeMode, log: Seq<Exchange>, i: int) -> bool {
    match log[i].call {
        Call::SetConversionStatus(himc, cmode, smode) => exists|j: int, old: u32|
            0 <= j < i && (#[trigger] log[j]).call == Call::GetConversionStatus(himc)
                && log[j].reply->Status_0 == Some((old, smode)) && cmode
                == #[trigger] mode.pinned(old),
        Call::ImeControl { command, value, .. } => command == IMC_SETCONVERSIONMODE ==> exists|
            j: int,
            old: u32,
        |
            0 <= j < i && (#[trigger] log[j]).call is ImeControl && log[j].call->command
                == IMC_GETCONVERSIONMODE && mode_read(log[j]) == Some(old) && value
                == #[trigger] mode.pinned(old) as u32 as isize,
        _ => true,
    }
}

/// Whether every value that a log writes is the pinned value of one that was read before.
pub open spec fn writes_are_pinned(mode: ImeMode, log: Seq<Exchange>) -> bool {
    forall|i: int| 0 <= i < log.len() ==> #[trigger] pins_what_was_read(mode, log, i)
}

/// What holds of a log that writes a conversion mode.
spec fn converts(mode: ImeMode, log: Seq<Exchange>, channel: Option<Channel>) -> bool {
    &&& first_channel_wins(log, channel)
    &&& shift_is_spared(mode, log)
    &&& writes_are_pinned(mode, log)
    &&& contexts_returned(log, None)
}

/// Whether no call of a log tries to write a conversion mode.
spec fn writeless(log: Seq<Exchange>) -> bool {
    forall|i: int| 0 <= i < log.len() ==> !writes_mode((#[trigger] log[i]).call)
}

proof fn lemma_writeless_converts(mode: ImeMode, log: Seq<Exchange>)
    requires
        writeless(log),
        contexts_returned(log, None),
    ensures
        converts(mode, log, None),
{
    assert forall|i: int| 0 <= i < log.len() implies mode_taken(#[trigger] log[i]) is None by {
        assert(!writes_mode(log[i].call));
    }
    assert forall|i: int| 0 <= i < log.len() implies #[trigger] pins_what_was_read(
        mode,
        log,
        i,
    ) by {
        assert(!writes_mode(log[i].call));
    }
}

proof fn lemma_quiet_writeless(log: Seq<Exchange>)
    requires
        quiet(log),
    ensures
        writeless(log),
{
    assert forall|i: int| 0 <= i < log.len() implies !writes_mode((#[trigger] log[i]).call) by {
        assert(!log[i].call.alters_input());
    }
}

/// Two logs that convert, one after the other, convert: if the first already writes the mode,
/// the second must not try.
proof fn lemma_converts_join(
    mode: ImeMode,
    log: Seq<Exchange>,
    n: int,
    first: Option<Channel>,
    second: Option<Channel>,
)
    requires
        0 <= n <= log.len(),
        converts(mode, log.take(n), first),
        converts(mode, log.skip(n), second),
        first is None || writeless(log.skip(n)),
        forall|i: int| 0 <= i < n ==> !((#[trigger] log.take(n)[i]).call is SendInput) || writeless(
            log.skip(n),
        ),
    ensures
        converts(
            mode,
            log,
            if first is Some {
                first
            } else {
                second
            },
        ),
{
    let a = log.take(n);
    let b = log.skip(n);
    assert(forall|i: int| 0 <= i < n ==> #[trigger] log[i] == a[i]);
    assert(forall|i: int| n <= i < log.len() ==> #[trigger] log[i] == b[i - n]);
    let channel = if first is Some {
        first
    } else {
        second
    };
    assert forall|i: int| 0 <= i < log.len() && mode_taken(#[trigger] log[i]) is Some implies
        mode_taken(log[i]) == channel by {
        if i >= n {
            assert(writes_mode(b[i - n].call));
        }
    }
    if first is Some {
        let i = choose|i: int| 0 <= i < a.len() && mode_taken(#[trigger] a[i]) == first;
        assert(mode_taken(log[i]) == channel);
    } else if second is Some {
        let i = choose|i: int| 0 <= i < b.len() && mode_taken(#[trigger] b[i]) == second;
        assert(mode_taken(log[i + n]) == channel);
    }
    assert forall|i: int, j: int|
        0 <= i < j < log.len() && mode_taken(#[trigger] log[i]) is Some implies !writes_mode(
        (#[trigger] log[j]).call,
    ) by {
        if j < n {
            assert(!writes_mode(a[j].call));
        } else if i < n {
            assert(mode_taken(a[i]) is Some);
            assert(!writes_mode(b[j - n].call));
        } else {
            assert(mode_taken(b[i - n]) is Some);
            assert(!writes_mode(b[j - n].call));
        }
    }
    assert forall|i: int, key: shift::ModifierKey|
        0 <= i < log.len() && (#[trigger] log[i]).call is SendInput implies #[trigger] found_up(
        log,
        i,
        key,
    ) by {
        if i < n {
            assert(found_up(a, i, key));
            let j = choose|j: int|
                0 <= j < i && (#[trigger] a[j]).call == Call::KeyState(key.code())
                    && !shift::held(a[j].reply->Key_0);
            assert(log[j] == a[j]);
        } else {
            assert(b[i - n].call is SendInput);
            assert(found_up(b, i - n, key));
            let j = choose|j: int|
                0 <= j < i - n && (#[trigger] b[j]).call == Call::KeyState(key.code())
                    && !shift::held(b[j].reply->Key_0);
            assert(log[j + n] == b[j]);
        }
    }
    assert forall|i: int| 0 <= i < log.len() && (#[trigger] log[i]).call is SendInput implies mode
        is ChineseOnly by {
        if i >= n {
            assert(b[i - n].call is SendInput);
        }
    }
    assert forall|i: int, j: int|
        0 <= i < j < log.len() && (#[trigger] log[i]).call is SendInput implies !((
    #[trigger] log[j]).call is SendInput) by {
        if j < n {
            assert(!(a[j].call is SendInput));
        } else if i < n {
            assert(a[i].call is SendInput);
            assert(!writes_mode(b[j - n].call));
        } else {
            assert(b[i - n].call is SendInput);
            assert(!(b[j - n].call is SendInput));
        }
    }
    assert forall|i: int| 0 <= i < log.len() implies #[trigger] pins_what_was_read(
        mode,
        log,
        i,
    ) by {
        if i < n {
            assert(pins_what_was_read(mode, a, i));
            lemma_pins_shift(mode, a, i, log, 0);
        } else {
            assert(pins_what_was_read(mode, b, i - n));
            lemma_pins_shift(mode, b, i - n, log, n);
        }
    }
    lemma_contexts_join(log, n, None);
}

/// A write stays pinned when its log becomes part of a longer one.
proof fn lemma_pins_shift(
    mode: ImeMode,
    part: Seq<Exchange>,
    i: int,
    log: Seq<Exchange>,
    offset: int,
)
    requires
        0 <= i < part.len(),
        0 <= offset,
        offset + part.len() <= log.len(),
        forall|k: int| 0 <= k < part.len() ==> #[trigger] part[k] == log[k + offset],
        pins_what_was_read(mode, part, i),
    ensures
        pins_what_was_read(mode, log, i + offset),
{
    match part[i].call {
        Call::SetConversionStatus(himc, cmode, smode) => {
            let (j, old) = choose|j: int, old: u32|
                0 <= j < i && (#[trigger] part[j]).call == Call::GetConversionStatus(himc)
                    && part[j].reply->Status_0 == Some((old, smode)) && cmode
                    == #[trigger] mode.pinned(old);
            assert(log[j + offset] == part[j]);
            assert(cmode == mode.pinned(old));
        },
        Call::ImeControl { command, value, .. } => {
            if command == IMC_SETCONVERSIONMODE {
                let (j, old) = choose|j: int, old: u32|
                    0 <= j < i && (#[trigger] part[j]).call is ImeControl && part[j].call->command
                        == IMC_GETCONVERSIONMODE && mode_read(part[j]) == Some(old) && value
                        == #[trigger] mode.pinned(old) as u32 as isize;
                assert(mode_read(log[j + offset]) == Some(old));
                assert(value == mode.pinned(old) as u32 as isize);
            }
        },
        _ => {},
    }
}

proof fn lemma_modifiers(key: shift::ModifierKey, log: Seq<Exchange>, any: bool)
    requires
        shift::modifiers_from(key).runs(log, any),
    ensures
        harmless(log),
        forall|i: int| 0 <= i < log.len() ==> (#[trigger] log[i]).call is KeyState,
        !any ==> forall|k: shift::ModifierKey|
            key.position() <= k.position() ==> #[trigger] found_up(log, log.len() as int, k),
    decreases 10 - key.position(),
{
    reveal_with_fuel(Script::runs, 2);
    let rest = log.drop_first();
    let down = shift::held(log[0].reply->Key_0);
    match key.successor() {
        Some(next) => if !down {
            lemma_modifiers(next, rest, any);
        },
        None => {},
    }
    lemma_harmless_push(log);
    assert forall|i: int| 0 <= i < log.len() implies (#[trigger] log[i]).call is KeyState by {
        if i > 0 {
            assert(log[i] == rest[i - 1]);
        }
    }
    if !any {
        assert forall|k: shift::ModifierKey|
            key.position() <= k.position() implies #[trigger] found_up(
            log,
            log.len() as int,
            k,
        ) by {
            if k == key {
                assert(log[0].call == Call::KeyState(k.code()));
            } else {
                assert(found_up(rest, rest.len() as int, k));
                let j = choose|j: int|
                    0 <= j < rest.len() && (#[trigger] rest[j]).call == Call::KeyState(k.code())
                        && !shift::held(rest[j].reply->Key_0);
                assert(log[j + 1] == rest[j]);
            }
        }
    }
}

proof fn lemma_tap(log: Seq<Exchange>, tapped: bool)
    requires
        shift::tap_script().runs(log, tapped),
    ensures
        converts(
            ImeMode::ChineseOnly,
            log,
            if tapped {
                Some(Channel::ShiftTap)
            } else {
                None
            },
        ),
        unannounced(log),
{
    reveal_with_fuel(Script::runs, 3);
    let (n, any) = script::lemma_runs_split(
        shift::modifiers_script(),
        shift::tap_unless(),
        log,
        tapped,
    );
    let keys = log.take(n);
    let rest = log.skip(n);
    lemma_modifiers(shift::ModifierKey::Shift, keys, any);
    assert(forall|i: int| 0 <= i < n ==> #[trigger] log[i] == keys[i]);
    assert(forall|i: int| n <= i < log.len() ==> #[trigger] log[i] == rest[i - n]);
    if any {
        let (m, written) = script::lemma_runs_split(
            clock::warn_script(Warning::ModifierHeld),
            shift::not_tapped(),
            rest,
            tapped,
        );
        assert(rest.take(m) =~= rest);
        lemma_warn(Warning::ModifierHeld, rest, written);
        lemma_harmless_join(log, n);
        lemma_quiet_writeless(log);
        lemma_quiet_unannounced(log);
        lemma_writeless_converts(ImeMode::ChineseOnly, log);
    } else {
        assert(rest.len() == 1);
        assert(log[n] == rest[0]);
        assert forall|i: int, key: shift::ModifierKey|
            0 <= i < log.len() && (#[trigger] log[i]).call is SendInput implies #[trigger] found_up(
            log,
            i,
            key,
        ) by {
            assert(i == n);
            assert(found_up(keys, n, key));
            let j = choose|j: int|
                0 <= j < n && (#[trigger] keys[j]).call == Call::KeyState(key.code())
                    && !shift::held(keys[j].reply->Key_0);
            assert(log[j] == keys[j]);
        }
        reveal_with_fuel(contexts_returned, 2);
        lemma_contexts_join(log, n, None);
        assert(mode_taken(log[n]) is Some == tapped);
        assert forall|i: int| 0 <= i < log.len() implies #[trigger] pins_what_was_read(
            ImeMode::ChineseOnly,
            log,
            i,
        ) by {
            if i < n {
                assert(log[i].call is KeyState);
            }
        }
    }
}

proof fn lemma_give_up(
    mode: ImeMode,
    warning: Warning,
    log: Seq<Exchange>,
    channel: Option<Channel>,
)
    requires
        convert::apply_give_up(warning).runs(log, channel),
    ensures
        channel is None,
        reporting(log),
        converts(mode, log, None),
        writeless(log),
{
    reveal_with_fuel(Script::runs, 2);
    let (n, written) = script::lemma_runs_split(
        clock::warn_script(warning),
        convert::apply_failed(),
        log,
        channel,
    );
    assert(log.take(n) =~= log);
    lemma_warn(warning, log, written);
    lemma_quiet_writeless(log);
    lemma_writeless_converts(mode, log);
}

/// Whether a call deals with a keyboard layout or goes to every window.
spec fn arranges(call: Call) -> bool {
    call is ActivateLayout || call is LoadLayout || call is Broadcast
}

/// Whether no call of a log deals with a keyboard layout or goes to every window.
spec fn unannounced(log: Seq<Exchange>) -> bool {
    forall|i: int| 0 <= i < log.len() ==> !arranges((#[trigger] log[i]).call)
}

proof fn lemma_unannounced_join(log: Seq<Exchange>, n: int)
    requires
        0 <= n <= log.len(),
        unannounced(log.take(n)),
        unannounced(log.skip(n)),
    ensures
        unannounced(log),
{
    assert forall|i: int| 0 <= i < log.len() implies !arranges((#[trigger] log[i]).call) by {
        if i < n {
            assert(log[i] == log.take(n)[i]);
        } else {
            assert(log[i] == log.skip(n)[i - n]);
        }
    }
}

proof fn lemma_quiet_unannounced(log: Seq<Exchange>)
    requires
        quiet(log),
    ensures
        unannounced(log),
{
    assert forall|i: int| 0 <= i < log.len() implies !arranges((#[trigger] log[i]).call) by {
        assert(!log[i].call.alters_input());
    }
}

proof fn lemma_apply_warn(
    mode: ImeMode,
    warning: Warning,
    log: Seq<Exchange>,
    channel: Option<Channel>,
)
    requires
        convert::apply_warn(mode, warning).runs(log, channel),
    ensures
        converts(mode, log, channel),
        unannounced(log),
{
    let (n, written) = script::lemma_runs_split(
        clock::warn_script(warning),
        convert::apply_last(mode),
        log,
        channel,
    );
    let first = log.take(n);
    let rest = log.skip(n);
    lemma_warn(warning, first, written);
    lemma_quiet_writeless(first);
    lemma_quiet_unannounced(first);
    lemma_writeless_converts(mode, first);
    match mode {
        ImeMode::ChineseOnly => {
            let (m, tapped) = script::lemma_runs_split(
                shift::tap_script(),
                convert::apply_tapped(),
                rest,
                channel,
            );
            lemma_tap(rest.take(m), tapped);
            let end = rest.skip(m);
            if tapped {
                assert(end.len() == 0);
                assert(rest.take(m) =~= rest);
            } else {
                lemma_give_up(mode, Warning::ShiftNotSent, end, channel);
                lemma_reporting_harmless(end);
                lemma_quiet_unannounced(end);
                lemma_converts_join(mode, rest, m, None, None);
                lemma_unannounced_join(rest, m);
            }
        },
        ImeMode::EnglishOnly => {
            lemma_give_up(mode, Warning::AllChannelsFailed, rest, channel);
            lemma_reporting_harmless(rest);
            lemma_quiet_unannounced(rest);
        },
    }
    assert(forall|i: int| 0 <= i < n ==> !writes_mode((#[trigger] first[i]).call));
    lemma_converts_join(mode, log, n, None, channel);
    lemma_unannounced_join(log, n);
}

/// Reading a mode from the default input-method window and writing back its pinned value.
proof fn lemma_default_pair(
    hwnd: usize,
    mode: ImeMode,
    log: Seq<Exchange>,
    n: int,
    old: u32,
    accepted: bool,
)
    requires
        0 <= n <= log.len(),
        defime::get_mode_script(hwnd).runs(log.take(n), Some(old)),
        defime::set_mode_script(hwnd, mode.pinned(old) as u32).runs(log.skip(n), accepted),
    ensures
        converts(
            mode,
            log,
            if accepted {
                Some(Channel::DefImeWnd)
            } else {
                None
            },
        ),
        unannounced(log),
        forall|i: int| 0 <= i < log.len() ==> !((#[trigger] log[i]).call is SendInput),
{
    reveal_with_fuel(Script::runs, 5);
    let get = log.take(n);
    let put = log.skip(n);
    lemma_get_mode(hwnd, get, Some(old));
    assert(n == 2);
    assert(get[1] == get.drop_first()[0]);
    assert(log[0] == get[0]);
    assert(log[1] == get[1]);
    assert(mode_read(log[1]) == Some(old));
    assert(forall|i: int| n <= i < log.len() ==> #[trigger] log[i] == put[i - n]);
    if put.len() > 1 {
        assert(put[1] == put.drop_first()[0]);
        assert(put[2] == put.drop_first().drop_first()[0]);
        assert(put.len() == 3);
        assert(log[3] == put[1]);
        assert(log[4] == put[2]);
        assert(accepted ==> mode_taken(log[4]) == Some(Channel::DefImeWnd));
        assert(!accepted ==> mode_taken(log[4]) is None);
    } else {
        assert(put.len() == 1);
    }
    assert(log[2] == put[0]);
    assert forall|i: int| 0 <= i < log.len() implies #[trigger] pins_what_was_read(
        mode,
        log,
        i,
    ) by {
        if i == 4 {
            assert(log[4].call->ImeControl_value == mode.pinned(old) as u32 as isize);
        }
    }
    reveal_with_fuel(contexts_returned, 6);
}

proof fn lemma_apply_default(
    hwnd: usize,
    mode: ImeMode,
    log: Seq<Exchange>,
    channel: Option<Channel>,
)
    requires
        convert::apply_default(hwnd, mode).runs(log, channel),
    ensures
        converts(mode, log, channel),
        unannounced(log),
        log.len() > 0,
        log[0].call == Call::DefaultImeWindow(hwnd),
{
    let (n, found) = script::lemma_runs_split(
        defime::get_mode_script(hwnd),
        convert::apply_read(hwnd, mode),
        log,
        channel,
    );
    let first = log.take(n);
    let rest = log.skip(n);
    reveal_with_fuel(Script::runs, 2);
    assert(log[0] == first[0]);
    lemma_get_mode(hwnd, first, found);
    match found {
        Some(old) => {
            let (m, accepted) = script::lemma_runs_split(
                defime::set_mode_script(hwnd, mode.pinned(old) as u32),
                convert::apply_written(mode),
                rest,
                channel,
            );
            let both = log.take(n + m);
            assert(both.take(n) =~= first);
            assert(both.skip(n) =~= rest.take(m));
            lemma_default_pair(hwnd, mode, both, n, old, accepted);
            let end = log.skip(n + m);
            assert(end =~= rest.skip(m));
            if accepted {
                assert(both =~= log);
            } else {
                lemma_apply_warn(mode, Warning::DefImeRejected, end, channel);
                lemma_converts_join(mode, log, n + m, None, channel);
                lemma_unannounced_join(log, n + m);
            }
        },
        None => {
            lemma_quiet_writeless(first);
            lemma_quiet_unannounced(first);
            lemma_writeless_converts(mode, first);
            lemma_apply_warn(mode, Warning::DefImeUnavailable, rest, channel);
            assert(forall|i: int| 0 <= i < n ==> !writes_mode((#[trigger] first[i]).call));
            lemma_converts_join(mode, log, n, None, channel);
            lemma_unannounced_join(log, n);
        },
    }
}

/// The part of a conversion that deals with the input context.
proof fn lemma_apply_context(
    hwnd: usize,
    mode: ImeMode,
    log: Seq<Exchange>,
    taken: bool,
)
    requires
        log.len() == 1 || log.len() == 3 || log.len() == 4,
        log[0].call == Call::GetContext(hwnd),
        log.len() == 1 ==> log[0].reply->Handle_0 == 0 && !taken,
        log.len() > 1 ==> log[0].reply->Handle_0 != 0 && log[1].call == Call::GetConversionStatus(
            log[0].reply->Handle_0,
        ) && log[log.len() - 1].call == Call::ReleaseContext(hwnd, log[0].reply->Handle_0),
        log.len() == 3 ==> !taken,
        log.len() == 4 ==> log[1].reply->Status_0 is Some && log[2].reply->Flag_0 == taken
            && log[2].call == Call::SetConversionStatus(
            log[0].reply->Handle_0,
            mode.pinned((log[1].reply->Status_0->0).0) as u32,
            (log[1].reply->Status_0->0).1,
        ),
    ensures
        converts(
            mode,
            log,
            if taken {
                Some(Channel::Imm32)
            } else {
                None
            },
        ),
        unannounced(log),
        forall|i: int| 0 <= i < log.len() ==> !((#[trigger] log[i]).call is SendInput),
{
    reveal_with_fuel(contexts_returned, 5);
    let l1 = log.drop_first();
    let l2 = l1.drop_first();
    let l3 = l2.drop_first();
    if log.len() > 1 {
        assert(l1[0] == log[1]);
        assert(l2[0] == log[2]);
    }
    if log.len() == 4 {
        assert(l3[0] == log[3]);
        let (old, smode) = log[1].reply->Status_0->0;
        mode::law_pin_keeps_other_bits(mode, old);
        assert(mode_taken(log[2]) == if taken {
            Some(Channel::Imm32)
        } else {
            None
        });
        assert(log[2].call->SetConversionStatus_1 == mode.pinned(old));
        assert(log[1].call == Call::GetConversionStatus(log[0].reply->Handle_0));
        assert(pins_what_was_read(mode, log, 2));
    }
    assert(contexts_returned(log, None));
}

proof fn lemma_apply(hwnd: usize, mode: ImeMode, log: Seq<Exchange>, channel: Option<Channel>)
    requires
        convert::apply_script(hwnd, mode).runs(log, channel),
    ensures
        converts(mode, log, channel),
        unannounced(log),
        log.len() > 0,
        log[0].call == Call::GetContext(hwnd),
        forall|i: int|
            0 <= i < log.len() && (#[trigger] log[i]).call is SendInput ==> exists|j: int|
                0 < j < i && (#[trigger] log[j]).call == Call::DefaultImeWindow(hwnd),
{
    reveal_with_fuel(Script::runs, 6);
    let l1 = log.drop_first();
    let l2 = l1.drop_first();
    let l3 = l2.drop_first();
    let l4 = l3.drop_first();
    let n: int = if log[0].reply->Handle_0 == 0 {
        1
    } else if l1[0].reply->Status_0 is None {
        3
    } else {
        4
    };
    if n > 1 {
        assert(log[1] == l1[0]);
        assert(log[2] == l2[0]);
    }
    if n > 3 {
        assert(log[3] == l3[0]);
    }
    let first = log.take(n);
    let rest = log.skip(n);
    assert(n == 1 ==> rest =~= l1);
    assert(n == 3 ==> rest =~= l3);
    assert(n == 4 ==> rest =~= l4);
    let taken = n == 4 && log[2].reply->Flag_0;
    lemma_apply_context(hwnd, mode, first, taken);
    if taken {
        assert(first =~= log);
    } else {
        lemma_apply_default(hwnd, mode, rest, channel);
        lemma_converts_join(mode, log, n, None, channel);
        lemma_unannounced_join(log, n);
        assert(log[n] == rest[0]);
        assert forall|i: int|
            0 <= i < log.len() && (#[trigger] log[i]).call is SendInput implies exists|j: int|
            0 < j < i && (#[trigger] log[j]).call == Call::DefaultImeWindow(hwnd) by {
            if i < n {
                assert(log[i] == first[i]);
            }
            assert(log[n].call == Call::DefaultImeWindow(hwnd));
        }
    }
}

/// Pinning the conversion mode stops at the first channel that takes it, and returns that channel;
/// it returns none exactly when none took it. Nothing is announced to other windows.
pub proof fn law_conversion_takes_the_first_channel(
    hwnd: usize,
    mode: ImeMode,
    log: Seq<Exchange>,
    channel: Option<Channel>,
)
    requires
        convert::apply_script(hwnd, mode).runs(log, channel),
    ensures
        first_channel_wins(log, channel),
        forall|i: int| 0 <= i < log.len() ==> !((#[trigger] log[i]).call is Broadcast),
{
    lemma_apply(hwnd, mode, log, channel);
    assert forall|i: int| 0 <= i < log.len() implies !((#[trigger] log[i]).call is Broadcast) by {
        assert(!arranges(log[i].call));
    }
}

/// Pinning the conversion mode activates no layout, loads none and announces nothing.
pub proof fn law_conversion_leaves_layouts(
    hwnd: usize,
    mode: ImeMode,
    log: Seq<Exchange>,
    channel: Option<Channel>,
)
    requires
        convert::apply_script(hwnd, mode).runs(log, channel),
    ensures
        forall|i: int|
            0 <= i < log.len() ==> !((#[trigger] log[i]).call is ActivateLayout) && !(log[i].call
                is LoadLayout) && !(log[i].call is Broadcast),
{
    lemma_apply(hwnd, mode, log, channel);
    assert forall|i: int| 0 <= i < log.len() implies !((#[trigger] log[i]).call is ActivateLayout)
        && !(log[i].call is LoadLayout) && !(log[i].call is Broadcast) by {
        assert(!arranges(log[i].call));
    }
}

/// Pinning the conversion mode taps Shift at most once, only for Chinese, only after it found every
/// modifier key up, and only after the input context and the default input-method window were tried
/// and did not take the mode.
pub proof fn law_conversion_taps_shift_last(
    hwnd: usize,
    mode: ImeMode,
    log: Seq<Exchange>,
    channel: Option<Channel>,
)
    requires
        convert::apply_script(hwnd, mode).runs(log, channel),
    ensures
        shift_is_spared(mode, log),
        forall|i: int|
            0 <= i < log.len() && (#[trigger] log[i]).call is SendInput ==> log[0].call
                == Call::GetContext(hwnd) && exists|j: int|
                0 < j < i && (#[trigger] log[j]).call == Call::DefaultImeWindow(hwnd),
        forall|i: int, j: int|
            0 <= j < i < log.len() && (#[trigger] log[i]).call is SendInput ==> mode_taken(
                #[trigger] log[j],
            ) is None,
{
    lemma_apply(hwnd, mode, log, channel);
    assert forall|i: int, j: int|
        0 <= j < i < log.len() && (#[trigger] log[i]).call is SendInput implies mode_taken(
        #[trigger] log[j],
    ) is None by {
        if mode_taken(log[j]) is Some {
            assert(!writes_mode(log[i].call));
        }
    }
}

/// Every conversion mode that is written is one that was read before through the same channel,
/// with the native bit pinned; sentence modes are written back as they were read.
pub proof fn law_conversion_pins_what_it_read(
    hwnd: usize,
    mode: ImeMode,
    log: Seq<Exchange>,
    channel: Option<Channel>,
)
    requires
        convert::apply_script(hwnd, mode).runs(log, channel),
    ensures
        writes_are_pinned(mode, log),
{
    lemma_apply(hwnd, mode, log, channel);
}

/// Pinning the conversion mode gives back every input context that it takes, and keeps none.
pub proof fn law_conversion_returns_contexts(
    hwnd: usize,
    mode: ImeMode,
    log: Seq<Exchange>,
    channel: Option<Channel>,
)
    requires
        convert::apply_script(hwnd, mode).runs(log, channel),
    ensures
        contexts_returned(log, None),
{
    lemma_apply(hwnd, mode, log, channel);
}

/// Whether the exchange with index `i`, if it asks every window to change to a layout, comes
/// right after that layout was activated.
pub open spec fn announces_active(log: Seq<Exchange>, i: int) -> bool {
    match log[i].call {
        Call::Broadcast { message, value } => message == WM_INPUTLANGCHANGEREQUEST ==> {
            &&& i > 0
            &&& log[i - 1].call is ActivateLayout
            &&& log[i - 1].reply->Flag_0
            &&& value == log[i - 1].call->ActivateLayout_0 as isize
        },
        _ => true,
    }
}

/// The part of an enforcement that deals with the layout. Returns where it ends.
proof fn lemma_layout_part(
    hwnd: usize,
    mode: ImeMode,
    hkl: usize,
    log: Seq<Exchange>,
    done: Enforcement,
) -> (n: int)
    requires
        enforce::enforce_activate(hwnd, mode, hkl).runs(log, done),
    ensures
        0 < n <= log.len(),
        enforce::enforce_convert(hwnd, mode).runs(log.skip(n), done),
        log[0].call == Call::ActivateLayout(hkl, KLF_ACTIVATE_EVERYWHERE),
        n == if log[0].reply->Flag_0 || log[1].reply->Loaded_0 is None || log[1].reply->Loaded_0
            == Some(0usize) {
            2int
        } else if log[2].reply->Flag_0 {
            4
        } else {
            3
        },
        converts(mode, log.take(n), None),
        writeless(log.take(n)),
        forall|i: int|
            0 <= i < n ==> #[trigger] log[i].call != (Call::Broadcast {
                message: WM_SETTINGCHANGE,
                value: 0,
            }),
        forall|i: int| 0 <= i < n ==> #[trigger] announces_active(log, i),
{
    reveal_with_fuel(Script::runs, 6);
    let l1 = log.drop_first();
    let l2 = l1.drop_first();
    let l3 = l2.drop_first();
    let l4 = l3.drop_first();
    assert(log[1] == l1[0]);
    let n: int = if log[0].reply->Flag_0 {
        2
    } else {
        match l1[0].reply->Loaded_0 {
            Some(loaded) => if loaded == 0 {
                2
            } else if l2[0].reply->Flag_0 {
                4
            } else {
                3
            },
            None => 2,
        }
    };
    if n > 2 {
        assert(log[2] == l2[0]);
    }
    if n > 3 {
        assert(log[3] == l3[0]);
    }
    let part = log.take(n);
    assert(forall|i: int| 0 <= i < n ==> #[trigger] part[i] == log[i]);
    assert(n == 2 ==> log.skip(n) =~= l2);
    assert(n == 3 ==> log.skip(n) =~= l3);
    assert(n == 4 ==> log.skip(n) =~= l4);
    reveal_with_fuel(contexts_returned, 5);
    let p1 = part.drop_first();
    let p2 = p1.drop_first();
    let p3 = p2.drop_first();
    assert(p1[0] == log[1]);
    if n > 2 {
        assert(p2[0] == log[2]);
    }
    if n > 3 {
        assert(p3[0] == log[3]);
    }
    assert(contexts_returned(part, None));
    lemma_writeless_converts(mode, part);
    n
}

proof fn lemma_resolve(mode: ImeMode, log: Seq<Exchange>, hkl: usize)
    requires
        layout::resolve_script(mode).runs(log, hkl),
    ensures
        harmless(log),
        mode::language_of(hkl) == mode.language(),
{
    reveal_with_fuel(Script::runs, 4);
    let l1 = log.drop_first();
    if l1.len() > 0 {
        let layouts = layout::stored(l1[0].reply->Layouts_0, l1[0].reply->Layouts_1@);
        layout::law_layout_has_the_language(mode, layouts);
        lemma_harmless_push(l1);
    }
    lemma_harmless_push(log);
}

/// Everything about a run of an enforcement: where its first activation stands, and what it
/// does. The laws below each state a part of it.
#[verifier::rlimit(40)]
proof fn lemma_enforce(hwnd: usize, mode: ImeMode, log: Seq<Exchange>, done: Enforcement) -> (first:
    int)
    requires
        enforce::enforce_script(hwnd, mode).runs(log, done),
    ensures
        converts(mode, log, done.channel),
        log.len() >= 2,
        log[log.len() - 2].call == (Call::Broadcast { message: WM_SETTINGCHANGE, value: 0 }),
        log[log.len() - 1].call == Call::KeyboardLayout(0),
        done.check == (layout::LayoutCheck {
            hkl: log[log.len() - 1].reply->Handle_0,
            current: mode::language_of(log[log.len() - 1].reply->Handle_0),
            target: mode.language(),
        }),
        forall|i: int|
            0 <= i < log.len() - 2 ==> #[trigger] log[i].call != (Call::Broadcast {
                message: WM_SETTINGCHANGE,
                value: 0,
            }),
        forall|i: int| 0 <= i < log.len() ==> #[trigger] announces_active(log, i),
        forall|i: int|
            0 <= i < log.len() && (#[trigger] log[i]).call is SendInput ==> exists|j: int, k: int|
                0 <= j < k < i && #[trigger] log[j].call == Call::GetContext(hwnd)
                    && #[trigger] log[k].call == Call::DefaultImeWindow(hwnd),
        0 <= first < log.len(),
        quiet(log.take(first)),
        log[first].call is ActivateLayout,
        mode::language_of(log[first].call->ActivateLayout_0) == mode.language(),
{
    let (n, hkl) = script::lemma_runs_split(
        layout::resolve_script(mode),
        enforce::enforce_resolved(hwnd, mode),
        log,
        done,
    );
    let a = log.take(n);
    let rest = log.skip(n);
    lemma_resolve(mode, a, hkl);
    lemma_quiet_writeless(a);
    lemma_quiet_unannounced(a);
    lemma_writeless_converts(mode, a);
    let m = lemma_layout_part(hwnd, mode, hkl, rest, done);
    let b = rest.take(m);
    let tail = rest.skip(m);
    let (k, channel) = script::lemma_runs_split(
        convert::apply_script(hwnd, mode),
        enforce::enforce_converted(mode),
        tail,
        done,
    );
    let c = tail.take(k);
    let d = tail.skip(k);
    lemma_apply(hwnd, mode, c, channel);
    lemma_finish(mode, channel, d, done);

    lemma_converts_join(mode, tail, k, channel, None);
    assert(tail.take(k) =~= c);
    lemma_converts_join(mode, rest, m, None, channel);
    lemma_converts_join(mode, log, n, None, channel);

    assert(forall|i: int| 0 <= i < n ==> #[trigger] log[i] == a[i]);
    assert(forall|i: int| n <= i < log.len() ==> #[trigger] log[i] == rest[i - n]);
    assert(forall|i: int| n + m <= i < n + m + k ==> #[trigger] log[i] == c[i - n - m]);
    assert(forall|i: int| n + m + k <= i < log.len() ==> #[trigger] log[i] == d[i - n - m - k]);
    assert(log[log.len() - 2] == d[0]);
    assert(log[log.len() - 1] == d[1]);
    assert(log[n] == rest[0]);
    assert forall|i: int| 0 <= i < log.len() implies #[trigger] announces_active(log, i) by {
        if i < n {
            assert(!arranges(a[i].call));
        } else if i < n + m {
            assert(announces_active(rest, i - n));
            if i > n {
                assert(log[i - 1] == rest[i - 1 - n]);
            }
        } else if i < n + m + k {
            assert(!arranges(c[i - n - m].call));
        }
    }
    assert forall|i: int| 0 <= i < log.len() - 2 implies #[trigger] log[i].call != (
    Call::Broadcast { message: WM_SETTINGCHANGE, value: 0 }) by {
        if i < n {
            assert(!arranges(a[i].call));
        } else if i < n + m {
            assert(rest[i - n].call == log[i].call);
        } else {
            assert(!arranges(c[i - n - m].call));
        }
    }
    assert forall|i: int| 0 <= i < log.len() && (#[trigger] log[i]).call is SendInput implies exists|
        j: int,
        k: int,
    |
        0 <= j < k < i && #[trigger] log[j].call == Call::GetContext(hwnd)
            && #[trigger] log[k].call == Call::DefaultImeWindow(hwnd) by {
        if i < n {
            assert(!writes_mode(a[i].call));
        } else if i < n + m {
            assert(!writes_mode(b[i - n].call));
        }
        assert(c[i - n - m].call is SendInput);
        let j = choose|j: int|
            0 < j < i - n - m && (#[trigger] c[j]).call == Call::DefaultImeWindow(hwnd);
        assert(log[n + m] == c[0]);
        assert(log[n + m + j] == c[j]);
        assert(log[n + m].call == Call::GetContext(hwnd));
        assert(log[n + m + j].call == Call::DefaultImeWindow(hwnd));
    }
    n
}

/// The end of an enforcement.
proof fn lemma_finish(
    mode: ImeMode,
    channel: Option<Channel>,
    log: Seq<Exchange>,
    done: Enforcement,
)
    requires
        enforce::enforce_finish(mode, channel).runs(log, done),
    ensures
        log.len() == 2,
        log[0].call == (Call::Broadcast { message: WM_SETTINGCHANGE, value: 0 }),
        log[1].call == Call::KeyboardLayout(0),
        done == (Enforcement {
            channel,
            check: layout::LayoutCheck {
                hkl: log[1].reply->Handle_0,
                current: mode::language_of(log[1].reply->Handle_0),
                target: mode.language(),
            },
        }),
        converts(mode, log, None),
        writeless(log),
{
    reveal_with_fuel(Script::runs, 4);
    let rest = log.drop_first();
    let (n, check) = script::lemma_runs_split(
        layout::verify_script(mode),
        enforce::enforce_verified(channel),
        rest,
        done,
    );
    assert(rest.take(n) =~= rest);
    assert(rest.len() == 1);
    assert(log[1] == rest[0]);
    reveal_with_fuel(contexts_returned, 3);
    assert(contexts_returned(log, None));
    lemma_writeless_converts(mode, log);
}

/// An enforcement announces a change of settings exactly once, whatever else came of it, and
/// looks at the active layout afterwards; that look is what it reports.
pub proof fn law_settings_change_is_announced(
    hwnd: usize,
    mode: ImeMode,
    log: Seq<Exchange>,
    done: Enforcement,
)
    requires
        enforce::enforce_script(hwnd, mode).runs(log, done),
    ensures
        log.len() >= 2,
        forall|i: int|
            0 <= i < log.len() ==> (#[trigger] log[i].call == (Call::Broadcast {
                message: WM_SETTINGCHANGE,
                value: 0,
            }) <==> i == log.len() - 2),
        log[log.len() - 1].call == Call::KeyboardLayout(0),
        done.check == (layout::LayoutCheck {
            hkl: log[log.len() - 1].reply->Handle_0,
            current: mode::language_of(log[log.len() - 1].reply->Handle_0),
            target: mode.language(),
        }),
{
    let _ = lemma_enforce(hwnd, mode, log, done);
}

/// The layout that an enforcement activates first has the language of the mode, and nothing is
/// altered before. Windows are asked to change to a layout only right after it was activated.
pub proof fn law_layout_is_active_before_it_is_announced(
    hwnd: usize,
    mode: ImeMode,
    log: Seq<Exchange>,
    done: Enforcement,
)
    requires
        enforce::enforce_script(hwnd, mode).runs(log, done),
    ensures
        exists|first: int|
            0 <= first < log.len() && quiet(log.take(first)) && (#[trigger] log[first]).call
                is ActivateLayout && mode::language_of(log[first].call->ActivateLayout_0)
                == mode.language(),
        forall|i: int| 0 <= i < log.len() ==> #[trigger] announces_active(log, i),
{
    let first = lemma_enforce(hwnd, mode, log, done);
    assert(log[first].call is ActivateLayout);
}

/// Whether an exchange asks every window to change to a layout.
pub open spec fn announces_layout(exchange: Exchange) -> bool {
    exchange.call is Broadcast && exchange.call->message == WM_INPUTLANGCHANGEREQUEST
}

/// The failure that an exchange reveals.
pub open spec fn failure_in(exchange: Exchange) -> Option<LayoutFailure> {
    enforce::failure_of(exchange.call, exchange.reply)
}

/// Whether the exchange with index `i`, if it reveals a failure, stands where that failure can come
/// about: loading fails after the first activation did, and what cannot be activated is the layout
/// that was loaded just before.
pub open spec fn failure_is_placed(mode: ImeMode, log: Seq<Exchange>, i: int) -> bool {
    match failure_in(log[i]) {
        Some(LayoutFailure::LoadFailed) => {
            &&& i > 0
            &&& log[i - 1].call is ActivateLayout
            &&& log[i - 1].call->ActivateLayout_1 == KLF_ACTIVATE_EVERYWHERE
            &&& !log[i - 1].reply->Flag_0
        },
        Some(LayoutFailure::NotActivated) => {
            &&& i > 0
            &&& log[i - 1].call == Call::LoadLayout(mode, KLF_ACTIVATE)
            &&& log[i - 1].reply->Loaded_0 == Some(log[i].call->ActivateLayout_0)
        },
        None => true,
    }
}

/// Whether a log deals with one layout as an enforcement must: it announces a layout, or it reveals
/// one failure and announces none, or the layout that it loads is null and it does neither.
pub open spec fn layout_is_accounted_for(mode: ImeMode, log: Seq<Exchange>) -> bool {
    &&& forall|i: int, j: int|
        0 <= i < log.len() && 0 <= j < log.len() && failure_in(#[trigger] log[i]) is Some
            ==> !announces_layout(#[trigger] log[j]) && (failure_in(log[j]) is Some ==> i == j)
    &&& forall|i: int| 0 <= i < log.len() ==> #[trigger] failure_is_placed(mode, log, i)
    &&& exists|i: int|
        {
            &&& 0 <= i < log.len()
            &&& {
                ||| announces_layout(#[trigger] log[i])
                ||| failure_in(log[i]) is Some
                ||| log[i].call is LoadLayout && log[i].reply->Loaded_0 == Some(0usize)
            }
        }
}

/// Whether no exchange of a log reveals a failure or asks every window to change to a layout.
spec fn layoutless(log: Seq<Exchange>) -> bool {
    forall|i: int|
        0 <= i < log.len() ==> failure_in(#[trigger] log[i]) is None && !announces_layout(log[i])
}

proof fn lemma_layoutless(log: Seq<Exchange>)
    requires
        unannounced(log),
    ensures
        layoutless(log),
{
    assert forall|i: int| 0 <= i < log.len() implies failure_in(#[trigger] log[i]) is None
        && !announces_layout(log[i]) by {
        assert(!arranges(log[i].call));
    }
}

/// What follows once a layout was dealt with has nothing to do with layouts.
proof fn lemma_layoutless_rest(hwnd: usize, mode: ImeMode, log: Seq<Exchange>, done: Enforcement)
    requires
        enforce::enforce_convert(hwnd, mode).runs(log, done),
    ensures
        layoutless(log),
{
    let (n, channel) = script::lemma_runs_split(
        convert::apply_script(hwnd, mode),
        enforce::enforce_converted(mode),
        log,
        done,
    );
    let first = log.take(n);
    let rest = log.skip(n);
    lemma_apply(hwnd, mode, first, channel);
    lemma_layoutless(first);
    lemma_finish(mode, channel, rest, done);
    assert forall|i: int| 0 <= i < log.len() implies failure_in(#[trigger] log[i]) is None
        && !announces_layout(log[i]) by {
        if i < n {
            assert(log[i] == first[i]);
        } else {
            assert(log[i] == rest[i - n]);
        }
    }
}

/// The exchanges that deal with the layout, as an enforcement makes them.
proof fn lemma_layout_exchanges(
    hwnd: usize,
    mode: ImeMode,
    hkl: usize,
    log: Seq<Exchange>,
    done: Enforcement,
)
    requires
        enforce::enforce_activate(hwnd, mode, hkl).runs(log, done),
    ensures
        log.len() >= 2,
        log[0].call == Call::ActivateLayout(hkl, KLF_ACTIVATE_EVERYWHERE),
        log[0].reply->Flag_0 ==> announces_layout(log[1]),
        !log[0].reply->Flag_0 ==> log[1].call == Call::LoadLayout(mode, KLF_ACTIVATE)
            && log[1].reply is Loaded,
        !log[0].reply->Flag_0 && log[1].reply->Loaded_0 is Some && log[1].reply->Loaded_0->0 != 0
            ==> log.len() >= 3 && log[2].call == Call::ActivateLayout(
            log[1].reply->Loaded_0->0,
            KLF_ACTIVATE,
        ) && log[2].reply is Flag && (log[2].reply->Flag_0 ==> log.len() >= 4 && announces_layout(
            log[3],
        )),
{
    reveal_with_fuel(Script::runs, 5);
    let l1 = log.drop_first();
    let l2 = l1.drop_first();
    let l3 = l2.drop_first();
    assert(log[1] == l1[0]);
    if l2.len() > 0 {
        assert(log[2] == l2[0]);
    }
    if l3.len() > 0 {
        assert(log[3] == l3[0]);
    }
}

/// An enforcement that knows its layout accounts for it.
proof fn lemma_layout_accounted(
    hwnd: usize,
    mode: ImeMode,
    hkl: usize,
    log: Seq<Exchange>,
    done: Enforcement,
)
    requires
        enforce::enforce_activate(hwnd, mode, hkl).runs(log, done),
    ensures
        layout_is_accounted_for(mode, log),
{
    lemma_layout_exchanges(hwnd, mode, hkl, log, done);
    let n = lemma_layout_part(hwnd, mode, hkl, log, done);
    let rest = log.skip(n);
    lemma_layoutless_rest(hwnd, mode, rest, done);
    assert forall|i: int| n <= i < log.len() implies failure_in(#[trigger] log[i]) is None
        && !announces_layout(log[i]) by {
        assert(log[i] == rest[i - n]);
    }
    assert forall|i: int| 0 <= i < log.len() implies #[trigger] failure_is_placed(
        mode,
        log,
        i,
    ) by {
        if i < n {
            assert(i == 0 || i == 1 || i == 2 || i == 3);
        } else {
            assert(failure_in(log[i]) is None);
        }
    }
    assert(announces_layout(log[1]) || failure_in(log[1]) is Some || (log[1].call is LoadLayout
        && log[1].reply->Loaded_0 == Some(0usize)) || announces_layout(log[3]) || failure_in(log[2])
        is Some);
}

/// An enforcement accounts for the layout: it announces one, or it reveals exactly one failure to
/// bring one in and announces none. Only if the layout that was loaded is null does it do neither.
pub proof fn law_layout_failure_is_revealed(
    hwnd: usize,
    mode: ImeMode,
    log: Seq<Exchange>,
    done: Enforcement,
)
    requires
        enforce::enforce_script(hwnd, mode).runs(log, done),
    ensures
        layout_is_accounted_for(mode, log),
{
    let (n, hkl) = script::lemma_runs_split(
        layout::resolve_script(mode),
        enforce::enforce_resolved(hwnd, mode),
        log,
        done,
    );
    let before = log.take(n);
    let part = log.skip(n);
    lemma_resolve(mode, before, hkl);
    lemma_quiet_unannounced(before);
    lemma_layoutless(before);
    lemma_layout_accounted(hwnd, mode, hkl, part, done);
    assert(forall|i: int| 0 <= i < n ==> #[trigger] log[i] == before[i]);
    assert(forall|i: int| n <= i < log.len() ==> #[trigger] log[i] == part[i - n]);
    assert forall|i: int| 0 <= i < log.len() implies #[trigger] failure_is_placed(
        mode,
        log,
        i,
    ) by {
        if i >= n {
            assert(failure_is_placed(mode, part, i - n));
        }
    }
    assert forall|i: int, j: int|
        0 <= i < log.len() && 0 <= j < log.len() && failure_in(#[trigger] log[i]) is Some implies
        !announces_layout(#[trigger] log[j]) && (failure_in(log[j]) is Some ==> i == j) by {
        assert(i >= n);
        if j >= n {
            assert(failure_in(part[i - n]) is Some);
            assert(!announces_layout(part[j - n]));
        }
    }
    let i = choose|i: int|
        {
            &&& 0 <= i < part.len()
            &&& {
                ||| announces_layout(#[trigger] part[i])
                ||| failure_in(part[i]) is Some
                ||| part[i].call is LoadLayout && part[i].reply->Loaded_0 == Some(0usize)
            }
        };
    assert(log[i + n] == part[i]);
}

/// An enforcement stops at the first channel that takes the conversion mode, and reports that
/// channel; it reports none exactly when none took it.
pub proof fn law_first_channel_wins(
    hwnd: usize,
    mode: ImeMode,
    log: Seq<Exchange>,
    done: Enforcement,
)
    requires
        enforce::enforce_script(hwnd, mode).runs(log, done),
    ensures
        first_channel_wins(log, done.channel),
{
    let _ = lemma_enforce(hwnd, mode, log, done);
}

/// An enforcement taps Shift at most once, only for Chinese, only after it found every modifier
/// key up, and only after the input context and the default input-method window were tried and
/// did not take the conversion mode.
pub proof fn law_shift_is_a_last_resort(
    hwnd: usize,
    mode: ImeMode,
    log: Seq<Exchange>,
    done: Enforcement,
)
    requires
        enforce::enforce_script(hwnd, mode).runs(log, done),
    ensures
        shift_is_spared(mode, log),
        forall|i: int|
            0 <= i < log.len() && (#[trigger] log[i]).call is SendInput ==> exists|j: int, k: int|
                0 <= j < k < i && #[trigger] log[j].call == Call::GetContext(hwnd)
                    && #[trigger] log[k].call == Call::DefaultImeWindow(hwnd),
        forall|i: int, j: int|
            0 <= j < i < log.len() && (#[trigger] log[i]).call is SendInput ==> mode_taken(
                #[trigger] log[j],
            ) is None,
{
    let _ = lemma_enforce(hwnd, mode, log, done);
    assert forall|i: int, j: int|
        0 <= j < i < log.len() && (#[trigger] log[i]).call is SendInput implies mode_taken(
        #[trigger] log[j],
    ) is None by {
        if mode_taken(log[j]) is Some {
            assert(!writes_mode(log[i].call));
        }
    }
}

/// Every conversion mode that an enforcement writes is one that it read before through the same
/// channel, with the native bit pinned; sentence modes are written back as they were read.
pub proof fn law_writes_are_pinned(
    hwnd: usize,
    mode: ImeMode,
    log: Seq<Exchange>,
    done: Enforcement,
)
    requires
        enforce::enforce_script(hwnd, mode).runs(log, done),
    ensures
        writes_are_pinned(mode, log),
{
    let _ = lemma_enforce(hwnd, mode, log, done);
}

/// An enforcement gives back every input context that it takes, and keeps none.
pub proof fn law_enforcement_returns_contexts(
    hwnd: usize,
    mode: ImeMode,
    log: Seq<Exchange>,
    done: Enforcement,
)
    requires
        enforce::enforce_script(hwnd, mode).runs(log, done),
    ensures
        contexts_returned(log, None),
{
    let _ = lemma_enforce(hwnd, mode, log, done);
}

/// A window is corrected only if detection says that it must be: a run starts with a detection,
/// which alters nothing. If its verdict is that the mode matches, the run ends there; otherwise
/// an enforcement of the mode on the same window follows, and nothing else.
pub proof fn law_correction_follows_detection(
    hwnd: usize,
    mode: ImeMode,
    log: Seq<Exchange>,
    outcome: Outcome,
)
    requires
        watch::correct_script(hwnd, mode).runs(log, outcome),
    ensures
        exists|n: int, matches: bool|
            {
                &&& 0 <= n <= log.len()
                &&& #[trigger] detect::matching_script(hwnd, mode).runs(log.take(n), matches)
                &&& quiet(log.take(n))
                &&& matches ==> n == log.len() && outcome == Outcome::Matched
                &&& !matches ==> outcome is Enforced && enforce::enforce_script(hwnd, mode).runs(
                    log.skip(n),
                    outcome->Enforced_0,
                )
            },
        quiet(log) <==> outcome == Outcome::Matched,
        contexts_returned(log, None),
{
    let (n, matches) = script::lemma_runs_split(
        detect::matching_script(hwnd, mode),
        watch::correct_detected(hwnd, mode),
        log,
        outcome,
    );
    law_detection_verdict(hwnd, mode, log.take(n), matches);
    let rest = log.skip(n);
    if matches {
        assert(rest.len() == 0);
        assert(log.take(n) =~= log);
    } else {
        lemma_corrected(hwnd, mode, rest, outcome);
        lemma_contexts_join(log, n, None);
        assert(rest[rest.len() - 2] == log[n + rest.len() - 2]);
    }
}

/// The part of a correction that enforces the mode.
proof fn lemma_corrected(hwnd: usize, mode: ImeMode, log: Seq<Exchange>, outcome: Outcome)
    requires
        enforce::enforce_script(hwnd, mode).followed_by(watch::correct_enforced()).runs(
            log,
            outcome,
        ),
    ensures
        outcome is Enforced,
        enforce::enforce_script(hwnd, mode).runs(log, outcome->Enforced_0),
        contexts_returned(log, None),
        log.len() >= 2,
        log[log.len() - 2].call.alters_input(),
{
    let (n, done) = script::lemma_runs_split(
        enforce::enforce_script(hwnd, mode),
        watch::correct_enforced(),
        log,
        outcome,
    );
    assert(log.skip(n).len() == 0);
    assert(log.take(n) =~= log);
    law_settings_change_is_announced(hwnd, mode, log, done);
    law_enforcement_returns_contexts(hwnd, mode, log, done);
}

/// A keyboard of another language than Chinese is left alone under [`ImeMode::ChineseOnly`]:
/// once the keyboard is known, the run ends, and nothing was altered.
pub proof fn law_other_keyboards_are_left_alone(
    hwnd: usize,
    log: Seq<Exchange>,
    outcome: Outcome,
)
    requires
        watch::correct_script(hwnd, ImeMode::ChineseOnly).runs(log, outcome),
        log.len() >= 2,
        mode::language_of(log[1].reply->Handle_0) != LANG_CHINESE,
    ensures
        outcome == Outcome::Matched,
        log.len() == 2,
        quiet(log),
{
    reveal_with_fuel(Script::runs, 4);
    reveal_with_fuel(Script::followed_by, 4);
    assert(log[1] == log.drop_first()[0]);
    law_correction_follows_detection(hwnd, ImeMode::ChineseOnly, log, outcome);
}

/// A conversion mode that was pinned to Chinese matches when it is read back: what an
/// enforcement wrote is not corrected again.
pub proof fn law_pinned_mode_matches(
    hwnd: usize,
    old: u32,
    log: Seq<Exchange>,
    matches: bool,
    i: int,
)
    requires
        detect::matching_script(hwnd, ImeMode::ChineseOnly).runs(log, matches),
        0 <= i < log.len(),
        mode_read(log[i]) == Some(ImeMode::ChineseOnly.pinned(old) as u32),
    ensures
        matches,
{
    law_detection_verdict(hwnd, ImeMode::ChineseOnly, log, matches);
    mode::law_pin_decides_native(ImeMode::ChineseOnly, old);
}

/// A tick of the timer while the tool is switched off reads the settings and does nothing else.
pub proof fn law_switched_off_timer_is_idle(log: Seq<Exchange>, outcome: Outcome)
    requires
        watch::timer_script().runs(log, outcome),
    ensures
        log.len() > 0,
        log[0].call == Call::ReadConfig,
        outcome == Outcome::SwitchedOff <==> !log[0].reply->Settings_0.master_switch,
        outcome == Outcome::SwitchedOff ==> log.len() == 1,
{
    reveal_with_fuel(Script::runs, 3);
    if log[0].reply->Settings_0.master_switch {
        let config = log[0].reply->Settings_0;
        let rest = log.drop_first();
        if rest[0].reply->Handle_0 != 0 {
            law_correction_follows_detection(
                rest[0].reply->Handle_0,
                config.ime_mode,
                rest.drop_first(),
                outcome,
            );
        }
    }
}

/// A tick of the timer while the tool is switched on corrects the foreground window under the
/// mode of the settings, if there is one, and does nothing else.
pub proof fn law_timer_corrects_the_foreground(log: Seq<Exchange>, outcome: Outcome)
    requires
        watch::timer_script().runs(log, outcome),
        log[0].reply->Settings_0.master_switch,
    ensures
        log.len() >= 2,
        log[1].call == Call::ForegroundWindow,
        log[1].reply->Handle_0 == 0 ==> log.len() == 2 && outcome == Outcome::NoWindow,
        log[1].reply->Handle_0 != 0 ==> watch::correct_script(
            log[1].reply->Handle_0,
            log[0].reply->Settings_0.ime_mode,
        ).runs(log.skip(2), outcome),
{
    reveal_with_fuel(Script::runs, 3);
    assert(log[1] == log.drop_first()[0]);
    assert(log.skip(2) =~= log.drop_first().drop_first());
}

/// A foreground event is handled in this order: it is compared with the last one and dropped if
/// that was just handled; it is remembered; it is dropped if the tool is switched off; and when
/// its window had time to settle, the window is corrected under the mode of the settings. An
/// event that is dropped alters nothing.
pub proof fn law_foreground_event(hwnd: usize, log: Seq<Exchange>, outcome: Outcome)
    requires
        watch::foreground_script(hwnd).runs(log, outcome),
    ensures
        log.len() >= 2,
        log[0].call == Call::ReadClock,
        log[1].call == Call::LoadLastEvent,
        ({
            let event = crate::call::LastEvent {
                hwnd,
                ms: clock::clock_ms(log[0].reply->Clock_0),
            };
            if clock::debounced(log[1].reply->Event_0, event) {
                log.len() == 2 && outcome == Outcome::Debounced
            } else {
                &&& log.len() >= 4
                &&& log[2].call == Call::StoreLastEvent(event)
                &&& log[3].call == Call::ReadConfig
                &&& if log[3].reply->Settings_0.master_switch {
                    &&& log.len() >= 5
                    &&& log[4].call == Call::Settle(watch::SETTLE_MS)
                    &&& watch::correct_script(hwnd, log[3].reply->Settings_0.ime_mode).runs(
                        log.skip(5),
                        outcome,
                    )
                } else {
                    log.len() == 4 && outcome == Outcome::SwitchedOff
                }
            }
        }),
        outcome == Outcome::Debounced || outcome == Outcome::SwitchedOff ==> quiet(log),
{
    reveal_with_fuel(Script::runs, 6);
    let l1 = log.drop_first();
    let l2 = l1.drop_first();
    let l3 = l2.drop_first();
    let l4 = l3.drop_first();
    assert(log[1] == l1[0]);
    if log.len() > 2 {
        assert(log[2] == l2[0]);
        assert(log[3] == l3[0]);
    }
    if log.len() > 4 {
        assert(log[4] == l4[0]);
        assert(log.skip(5) =~= l4.drop_first());
        law_correction_follows_detection(
            hwnd,
            log[3].reply->Settings_0.ime_mode,
            log.skip(5),
            outcome,
        );
    }
}

/// A foreground event keeps no input context.
pub proof fn law_foreground_event_returns_contexts(
    hwnd: usize,
    log: Seq<Exchange>,
    outcome: Outcome,
)
    requires
        watch::foreground_script(hwnd).runs(log, outcome),
    ensures
        contexts_returned(log, None),
{
    reveal_with_fuel(contexts_returned, 6);
    law_foreground_event(hwnd, log, outcome);
    let l1 = log.drop_first();
    let l2 = l1.drop_first();
    let l3 = l2.drop_first();
    let l4 = l3.drop_first();
    assert(log[1] == l1[0]);
    if log.len() > 2 {
        assert(log[2] == l2[0]);
        assert(log[3] == l3[0]);
    }
    if log.len() > 4 {
        assert(log[4] == l4[0]);
        assert(log.skip(5) =~= l4.drop_first());
        law_correction_follows_detection(
            hwnd,
            log[3].reply->Settings_0.ime_mode,
            log.skip(5),
            outcome,
        );
    }
}

/// A tick of the timer keeps no input context.
pub proof fn law_timer_returns_contexts(log: Seq<Exchange>, outcome: Outcome)
    requires
        watch::timer_script().runs(log, outcome),
    ensures
        contexts_returned(log, None),
{
    reveal_with_fuel(contexts_returned, 3);
    law_switched_off_timer_is_idle(log, outcome);
    if log[0].reply->Settings_0.master_switch {
        law_timer_corrects_the_foreground(log, outcome);
        let rest = log.drop_first();
        assert(log[1] == rest[0]);
        assert(log.skip(2) =~= rest.drop_first());
        if log[1].reply->Handle_0 != 0 {
            law_correction_follows_detection(
                log[1].reply->Handle_0,
                log[0].reply->Settings_0.ime_mode,
                log.skip(2),
                outcome,
            );
        }
    }
}

/// A hot key that is not registered does nothing.
pub proof fn law_unknown_hotkey_is_ignored(
    ids: HotkeyIds,
    hwnd: usize,
    wparam: usize,
    log: Seq<Exchange>,
    action: Option<HotkeyAction>,
)
    requires
        hotkey::hotkey_script(ids, hwnd, wparam).runs(log, action),
        wparam as i32 != ids.toggle,
        wparam as i32 != ids.switch_mode,
    ensures
        log.len() == 0,
        action is None,
{
    reveal_with_fuel(Script::runs, 2);
}

/// The toggle key flips the master switch and no other setting, shows the new state in the tray,
/// and shows it in a balloon tip exactly if the settings, read again, want balloon tips.
pub proof fn law_toggle_flips_the_switch(
    ids: HotkeyIds,
    hwnd: usize,
    wparam: usize,
    log: Seq<Exchange>,
    action: Option<HotkeyAction>,
)
    requires
        hotkey::hotkey_script(ids, hwnd, wparam).runs(log, action),
        wparam as i32 == ids.toggle,
    ensures
        action == Some(HotkeyAction::Toggle),
        4 <= log.len() <= 5,
        log[0].call == Call::LockConfig,
        ({
            let config = log[0].reply->Settings_0;
            let active = !config.master_switch;
            &&& log[1].call == Call::StoreConfig(
                crate::mode::Config { master_switch: active, ..config },
            )
            &&& log[2].call == Call::UpdateTrayIcon(hwnd, active)
            &&& log[3].call == Call::ReadConfig
            &&& log.len() == 5 <==> log[3].reply->Settings_0.show_notifications
            &&& log.len() == 5 ==> log[4].call == Call::ShowBalloon(hwnd, active)
        }),
{
    reveal_with_fuel(Script::runs, 7);
    let l1 = log.drop_first();
    let l2 = l1.drop_first();
    let l3 = l2.drop_first();
    let l4 = l3.drop_first();
    assert(log[1] == l1[0]);
    assert(log[2] == l2[0]);
    assert(log[3] == l3[0]);
    if l4.len() > 0 {
        assert(log[4] == l4[0]);
    }
}

/// The other key changes the mode and no other setting, and applies the new mode.
pub proof fn law_switch_changes_the_mode(
    ids: HotkeyIds,
    hwnd: usize,
    wparam: usize,
    log: Seq<Exchange>,
    action: Option<HotkeyAction>,
)
    requires
        hotkey::hotkey_script(ids, hwnd, wparam).runs(log, action),
        wparam as i32 != ids.toggle,
        wparam as i32 == ids.switch_mode,
    ensures
        action == Some(HotkeyAction::SwitchMode),
        log.len() == 3,
        log[0].call == Call::LockConfig,
        ({
            let config = log[0].reply->Settings_0;
            let mode = config.ime_mode.other();
            &&& log[1].call == Call::StoreConfig(crate::mode::Config { ime_mode: mode, ..config })
            &&& log[2].call == Call::ApplySetting(hwnd, mode)
        }),
{
    reveal_with_fuel(Script::runs, 5);
    assert(log[1] == log.drop_first()[0]);
    assert(log[2] == log.drop_first().drop_first()[0]);
}

/// Pressing a hot key twice brings the settings back to what they were.
pub proof fn law_second_press_undoes_the_first(
    ids: HotkeyIds,
    hwnd: usize,
    wparam: usize,
    first: Seq<Exchange>,
    second: Seq<Exchange>,
    action: Option<HotkeyAction>,
    again: Option<HotkeyAction>,
)
    requires
        hotkey::hotkey_script(ids, hwnd, wparam).runs(first, action),
        hotkey::hotkey_script(ids, hwnd, wparam).runs(second, again),
        action is Some,
        first[1].call == Call::StoreConfig(second[0].reply->Settings_0),
    ensures
        second[1].call == Call::StoreConfig(first[0].reply->Settings_0),
{
    if wparam as i32 == ids.toggle {
        law_toggle_flips_the_switch(ids, hwnd, wparam, first, action);
        law_toggle_flips_the_switch(ids, hwnd, wparam, second, again);
    } else if wparam as i32 == ids.switch_mode {
        law_switch_changes_the_mode(ids, hwnd, wparam, first, action);
        law_switch_changes_the_mode(ids, hwnd, wparam, second, again);
    } else {
        law_unknown_hotkey_is_ignored(ids, hwnd, wparam, first, action);
    }
}

} // verus!

//! Texts: the description of a window, the warnings and the balloon tips.

use vstd::prelude::*;
use vstd::string::*;

use crate::call::{Channel, Warning};
use crate::enforce::LayoutFailure;

verus! {

/// `String::push`: appends a character.
pub assume_specification[ String::push ](string: &mut String, ch: char)
    ensures
        final(string)@ == old(string)@.push(ch),
;

/// `char::from_u32`: the character with a code point, for every number that is the code point
/// of a character, that is up to 0x10FFFF and no surrogate; none for any other number.
pub assume_specification[ char::from_u32 ](i: u32) -> (ch: Option<char>)
    ensures
        ch is Some <==> (i <= 0xD7FF || 0xE000 <= i <= 0x10FFFF),
        ch matches Some(c) ==> c == i as char,
;

/// Whether a UTF-16 unit is the first half of a surrogate pair.
pub open spec fn is_high_surrogate(unit: u16) -> bool {
    0xD800 <= unit <= 0xDBFF
}

/// Whether a UTF-16 unit is the second half of a surrogate pair.
pub open spec fn is_low_surrogate(unit: u16) -> bool {
    0xDC00 <= unit <= 0xDFFF
}

/// The code point of a surrogate pair.
pub open spec fn pair_code(high: u16, low: u16) -> int {
    0x1_0000 + (high - 0xD800) * 0x400 + (low - 0xDC00)
}

/// The text that UTF-16 units stand for; a surrogate without its partner becomes U+FFFD.
pub open spec fn utf16_text(units: Seq<u16>) -> Seq<char>
    decreases units.len(),
{
    if units.len() == 0 {
        Seq::empty()
    } else if units.len() > 1 && is_high_surrogate(units[0]) && is_low_surrogate(units[1]) {
        seq![pair_code(units[0], units[1]) as char] + utf16_text(units.skip(2))
    } else if is_high_surrogate(units[0]) || is_low_surrogate(units[0]) {
        seq!['\u{FFFD}'] + utf16_text(units.skip(1))
    } else {
        seq![units[0] as char] + utf16_text(units.skip(1))
    }
}

/// Appends the text that the first `length` UTF-16 units stand for.
pub fn push_utf16(text: &mut String, units: &[u16], length: usize)
    requires
        length <= units@.len(),
    ensures
        final(text)@ == old(text)@ + utf16_text(units@.take(length as int)),
{
    let ghost all = units@.take(length as int);
    let ghost before = text@;
    let mut i: usize = 0;
    assert(all.skip(0) =~= all);
    while i < length
        invariant
            0 <= i <= length <= units@.len(),
            all == units@.take(length as int),
            before + utf16_text(all) == text@ + utf16_text(all.skip(i as int)),
        decreases length - i,
    {
        let ghost rest = all.skip(i as int);
        let ghost so_far = text@;
        let unit: u16 = units[i];
        let pair: bool = 0xD800 <= unit && unit <= 0xDBFF && i + 1 < length && 0xDC00 <= units[i
            + 1] && units[i + 1] <= 0xDFFF;
        let code: u32 = if pair {
            0x1_0000 + (unit as u32 - 0xD800) * 0x400 + (units[i + 1] as u32 - 0xDC00)
        } else {
            unit as u32
        };
        match char::from_u32(code) {
            Some(c) => text.push(c),
            None => text.push('\u{FFFD}'),
        }
        i = if pair {
            i + 2
        } else {
            i + 1
        };
        proof {
            assert(rest.skip(2) =~= all.skip(i as int) || !pair);
            assert(rest.skip(1) =~= all.skip(i as int) || pair);
            assert(text@ =~= so_far + seq![utf16_text(rest)[0]]);
            assert(text@ + utf16_text(all.skip(i as int)) =~= so_far + utf16_text(rest));
        }
    }
    assert(utf16_text(all.skip(length as int)) =~= Seq::empty());
    assert(before + utf16_text(all) =~= text@);
}

/// The digit with a value, in lower case.
pub open spec fn digit(value: int) -> char {
    if value < 10 {
        (0x30 + value) as char
    } else {
        (0x61 + value - 10) as char
    }
}

/// The decimal digits of a number.
pub open spec fn decimal(n: nat) -> Seq<char>
    decreases n,
{
    if n < 10 {
        seq![digit(n as int)]
    } else {
        decimal(n / 10).push(digit(n as int % 10))
    }
}

/// The lowest `width` hexadecimal digits of a number.
pub open spec fn hexadecimal(n: nat, width: nat) -> Seq<char>
    decreases width,
{
    if width == 0 {
        Seq::empty()
    } else {
        hexadecimal(n / 16, (width - 1) as nat).push(digit(n as int % 16))
    }
}

/// The digit with a value, in lower case.
fn digit_char(value: u32) -> (c: char)
    requires
        value < 16,
    ensures
        c == digit(value as int),
{
    let code: u8 = if value < 10 {
        0x30 + value as u8
    } else {
        0x61 + (value as u8 - 10)
    };
    code as char
}

/// Appends the decimal digits of a number.
pub fn push_decimal(text: &mut String, n: u32)
    ensures
        final(text)@ == old(text)@ + decimal(n as nat),
    decreases n,
{
    if n >= 10 {
        push_decimal(text, n / 10);
    }
    text.push(digit_char(n % 10));
    assert(text@ =~= old(text)@ + decimal(n as nat));
}

/// Appends the lowest `width` hexadecimal digits of a number.
pub fn push_hexadecimal(text: &mut String, n: u32, width: u32)
    ensures
        final(text)@ == old(text)@ + hexadecimal(n as nat, width as nat),
    decreases width,
{
    if width > 0 {
        push_hexadecimal(text, n / 16, width - 1);
        text.push(digit_char(n % 16));
    }
    assert(text@ =~= old(text)@ + hexadecimal(n as nat, width as nat));
}

/// The text in a buffer of UTF-16 units, or `otherwise` if the buffer holds none.
pub open spec fn buffer_text(buffer: Seq<u16>, length: i32, otherwise: Seq<char>) -> Seq<char> {
    if length > 0 {
        utf16_text(buffer.take(length as int))
    } else {
        otherwise
    }
}

/// A window in one line: the name of its class, its title and its process.
pub open spec fn context_text(class: Seq<char>, title: Seq<char>, pid: u32) -> Seq<char> {
    class + " ["@ + title + "] pid="@ + decimal(pid as nat)
}

/// Describes a window in one line. Class and title come as buffers of UTF-16 units, each with
/// the length that was stored; a class without a name is a question mark.
pub fn foreground_context(
    class: &[u16],
    class_length: i32,
    title: &[u16],
    title_length: i32,
    pid: u32,
) -> (text: String)
    requires
        class_length <= class@.len(),
        title_length <= title@.len(),
    ensures
        text@ == context_text(
            buffer_text(class@, class_length, "?"@),
            buffer_text(title@, title_length, Seq::empty()),
            pid,
        ),
{
    let mut text = String::new();
    if class_length > 0 {
        push_utf16(&mut text, class, class_length as usize);
    } else {
        text.append("?");
    }
    assert(text@ =~= buffer_text(class@, class_length, "?"@));
    text.append(" [");
    if title_length > 0 {
        push_utf16(&mut text, title, title_length as usize);
    }
    text.append("] pid=");
    push_decimal(&mut text, pid);
    assert(text@ =~= context_text(
        buffer_text(class@, class_length, "?"@),
        buffer_text(title@, title_length, Seq::empty()),
        pid,
    ));
    text
}

/// The name of a channel.
pub open spec fn channel_text(channel: Channel) -> Seq<char> {
    match channel {
        Channel::Imm32 => "IMM32"@,
        Channel::DefImeWnd => "DefIMEWnd"@,
        Channel::ShiftTap => "Shift"@,
    }
}

/// The name of a channel.
pub fn channel_name(channel: Channel) -> (name: &'static str)
    ensures
        name@ == channel_text(channel),
{
    match channel {
        Channel::Imm32 => "IMM32",
        Channel::DefImeWnd => "DefIMEWnd",
        Channel::ShiftTap => "Shift",
    }
}

/// What a warning says; `context` describes the window that it is about.
pub open spec fn warning_text(warning: Warning, context: Seq<char>) -> Seq<char> {
    match warning {
        Warning::NotNative { source, cmode } => "检测到非中文子模式: 来源="@ + channel_text(source)
            + " cmode=0x"@ + hexadecimal(cmode as nat, 8) + " 窗口="@ + context,
        Warning::DefImeRejected => "DefIMEWnd 设置转换状态被拒绝（微软拼音 TSF 常见行为）"@,
        Warning::DefImeUnavailable => "DefIMEWnd 不可用，跳过该通道"@,
        Warning::ModifierHeld => "检测到修饰键按住，跳过 Shift 模拟"@,
        Warning::ShiftNotSent => "模拟 Shift 未执行或发送失败"@,
        Warning::AllChannelsFailed => "所有转换状态设置通道均失败（EnglishOnly 无 Shift 兜底）"@,
    }
}

/// What a warning says; `context` describes the window that it is about.
pub fn warning_message(warning: Warning, context: &str) -> (text: String)
    ensures
        text@ == warning_text(warning, context@),
{
    let mut text = String::new();
    match warning {
        Warning::NotNative { source, cmode } => {
            text.append("检测到非中文子模式: 来源=");
            text.append(channel_name(source));
            text.append(" cmode=0x");
            push_hexadecimal(&mut text, cmode, 8);
            text.append(" 窗口=");
            text.append(context);
        },
        Warning::DefImeRejected => text.append(
            "DefIMEWnd 设置转换状态被拒绝（微软拼音 TSF 常见行为）",
        ),
        Warning::DefImeUnavailable => text.append("DefIMEWnd 不可用，跳过该通道"),
        Warning::ModifierHeld => text.append("检测到修饰键按住，跳过 Shift 模拟"),
        Warning::ShiftNotSent => text.append("模拟 Shift 未执行或发送失败"),
        Warning::AllChannelsFailed => text.append(
            "所有转换状态设置通道均失败（EnglishOnly 无 Shift 兜底）",
        ),
    }
    assert(text@ =~= warning_text(warning, context@));
    text
}

/// What is reported of a failure to bring in a keyboard layout.
pub fn failure_message(failure: LayoutFailure) -> (message: &'static str)
    ensures
        failure is LoadFailed ==> message@ == "LoadKeyboardLayout 失败"@,
        failure is NotActivated ==> message@ == "LoadKeyboardLayout 后激活失败"@,
{
    match failure {
        LayoutFailure::LoadFailed => "LoadKeyboardLayout 失败",
        LayoutFailure::NotActivated => "LoadKeyboardLayout 后激活失败",
    }
}

/// The title of the balloon tip.
pub fn balloon_title() -> (title: &'static str)
    ensures
        title@ == "快捷键触发"@,
{
    "快捷键触发"
}

/// The balloon tip that says whether the tool is active.
pub fn balloon_message(active: bool) -> (message: &'static str)
    ensures
        active ==> message@ == "已启用强制输入法模式"@,
        !active ==> message@ == "已恢复输入法自动切换"@,
{
    if active {
        "已启用强制输入法模式"
    } else {
        "已恢复输入法自动切换"
    }
}

/// The UTF-16 units of a text.
pub open spec fn utf16_units(text: Seq<char>) -> Seq<u16>
    decreases text.len(),
{
    if text.len() == 0 {
        Seq::empty()
    } else {
        let code = text[0] as u32;
        let first = if code < 0x1_0000 {
            seq![code as u16]
        } else {
            seq![
                (0xD800 + (code - 0x1_0000) / 0x400) as u16,
                (0xDC00 + (code - 0x1_0000) % 0x400) as u16,
            ]
        };
        first + utf16_units(text.skip(1))
    }
}

/// A character has a code point, and is the one with that code point.
proof fn lemma_code_point(c: char)
    ensures
        c as u32 <= 0xD7FF || 0xE000 <= c as u32 <= 0x10FFFF,
        (c as u32) as char == c,
        c as u32 as int as char == c,
        c as u32 == c as int,
{
}

/// What the units of a text stand for is the text, whatever comes after them; and nothing stands
/// for nothing.
pub proof fn law_utf16_round_trip(text: Seq<char>, rest: Seq<u16>)
    ensures
        utf16_text(utf16_units(text) + rest) == text + utf16_text(rest),
        utf16_text(Seq::empty()) == Seq::<char>::empty(),
    decreases text.len(),
{
    if text.len() == 0 {
        assert(utf16_units(text) + rest =~= rest);
        assert(text + utf16_text(rest) =~= utf16_text(rest));
    } else {
        let code = text[0] as u32;
        let tail = text.skip(1);
        let units = utf16_units(text) + rest;
        lemma_code_point(text[0]);
        law_utf16_round_trip(tail, rest);
        let more = utf16_units(tail) + rest;
        if code < 0x1_0000 {
            assert(units =~= seq![code as u16] + more);
            assert(units.skip(1) =~= more);
            assert(units[0] as char == text[0]);
            assert(utf16_text(units) =~= seq![text[0]] + utf16_text(more));
        } else {
            let high = (0xD800 + (code - 0x1_0000) / 0x400) as u16;
            let low = (0xDC00 + (code - 0x1_0000) % 0x400) as u16;
            assert(units =~= seq![high, low] + more);
            assert(units.skip(2) =~= more);
            assert(pair_code(high, low) == code);
            assert(utf16_text(units) =~= seq![text[0]] + utf16_text(more));
        }
        assert(seq![text[0]] + (tail + utf16_text(rest)) =~= text + utf16_text(rest));
    }
}

/// A surrogate without its partner stands for U+FFFD, and what comes after it stands for what it
/// stands for alone.
pub proof fn law_lone_surrogate_is_replaced(unit: u16, rest: Seq<u16>)
    requires
        0xD800 <= unit <= 0xDFFF,
        unit >= 0xDC00 || rest.len() == 0 || rest[0] < 0xDC00 || rest[0] > 0xDFFF,
    ensures
        utf16_text(seq![unit] + rest) == seq!['\u{FFFD}'] + utf16_text(rest),
{
    let units = seq![unit] + rest;
    assert(units.skip(1) =~= rest);
    if rest.len() > 0 {
        assert(units[1] == rest[0]);
    }
}

/// The value of a digit, decimal or hexadecimal in lower case.
pub open spec fn digit_value(c: char) -> int {
    if '0' <= c && c <= '9' {
        c as int - '0' as int
    } else {
        c as int - 'a' as int + 10
    }
}

/// Whether a character is a digit, decimal or hexadecimal in lower case.
pub open spec fn is_digit(c: char, base: int) -> bool {
    (('0' <= c && c <= '9') || ('a' <= c && c <= 'f')) && digit_value(c) < base
}

/// The number that digits stand for.
pub open spec fn number(digits: Seq<char>, base: int) -> int
    decreases digits.len(),
{
    if digits.len() == 0 {
        0
    } else {
        number(digits.drop_last(), base) * base + digit_value(digits.last())
    }
}

/// The decimal digits of a number are digits, stand for the number, and do not start with a zero,
/// but for zero itself, which is one digit.
pub proof fn law_decimal_stands_for_its_number(n: nat)
    ensures
        number(decimal(n), 10) == n,
        forall|i: int| 0 <= i < decimal(n).len() ==> is_digit(#[trigger] decimal(n)[i], 10),
        decimal(n).len() > 0,
        decimal(n)[0] == '0' <==> n == 0,
        n == 0 ==> decimal(n).len() == 1,
    decreases n,
{
    reveal_with_fuel(number, 2);
    if n < 10 {
        assert(decimal(n).drop_last() =~= Seq::empty());
    } else {
        law_decimal_stands_for_its_number(n / 10);
        assert(decimal(n).drop_last() =~= decimal(n / 10));
        assert(decimal(n)[0] == decimal(n / 10)[0]);
        assert forall|i: int| 0 <= i < decimal(n).len() implies is_digit(
            #[trigger] decimal(n)[i],
            10,
        ) by {
            if i < decimal(n / 10).len() {
                assert(decimal(n)[i] == decimal(n / 10)[i]);
            }
        }
    }
}

/// The lowest hexadecimal digits of a number are digits, as many as asked for, and stand for the
/// number as far as they reach.
pub proof fn law_hexadecimal_stands_for_its_number(n: nat, width: nat)
    ensures
        hexadecimal(n, width).len() == width,
        number(hexadecimal(n, width), 16) == n as int % vstd::arithmetic::power::pow(16, width),
        forall|i: int|
            0 <= i < width ==> is_digit(#[trigger] hexadecimal(n, width)[i], 16),
    decreases width,
{
    reveal(vstd::arithmetic::power::pow);
    reveal_with_fuel(number, 2);
    if width > 0 {
        let less = (width - 1) as nat;
        law_hexadecimal_stands_for_its_number(n / 16, less);
        vstd::arithmetic::power::lemma_pow_positive(16, less);
        vstd::arithmetic::div_mod::lemma_mod_breakdown(
            n as int,
            16,
            vstd::arithmetic::power::pow(16, less),
        );
        assert(hexadecimal(n, width).drop_last() =~= hexadecimal(n / 16, less));
        assert forall|i: int| 0 <= i < width implies is_digit(
            #[trigger] hexadecimal(n, width)[i],
            16,
        ) by {
            if i < less {
                assert(hexadecimal(n, width)[i] == hexadecimal(n / 16, less)[i]);
            }
        }
    }
}

/// A window is described by the name of its class, its title in brackets, and its process.
pub proof fn law_description_of_windows(class: Seq<char>, title: Seq<char>, pid: u32)
    ensures
        context_text(class, title, pid) == class + seq![' ', '['] + title + seq![
            ']',
            ' ',
            'p',
            'i',
            'd',
            '=',
        ] + decimal(pid as nat),
{
    reveal_strlit(" [");
    reveal_strlit("] pid=");
    assert(" ["@ =~= seq![' ', '[']);
    assert("] pid="@ =~= seq![']', ' ', 'p', 'i', 'd', '=']);
}

/// A buffer stands for the text of as many units as were stored, and for something else only if
/// none were.
pub proof fn law_text_of_buffers(buffer: Seq<u16>, length: i32, otherwise: Seq<char>)
    requires
        length <= buffer.len(),
    ensures
        length <= 0 ==> buffer_text(buffer, length, otherwise) == otherwise,
        length > 0 ==> buffer_text(buffer, length, otherwise) == utf16_text(
            buffer.subrange(0, length as int),
        ),
{
    if length > 0 {
        assert(buffer.take(length as int) =~= buffer.subrange(0, length as int));
    }
}

/// The warning about the sub-mode names where the mode was read, the whole mode and the window.
pub proof fn law_warning_names_the_mode(source: Channel, cmode: u32, context: Seq<char>)
    ensures
        warning_text(Warning::NotNative { source, cmode }, context)
            == "检测到非中文子模式: 来源="@ + channel_text(source) + " cmode=0x"@ + hexadecimal(
            cmode as nat,
            8,
        ) + " 窗口="@ + context,
        channel_text(Channel::Imm32) == "IMM32"@,
        channel_text(Channel::DefImeWnd) == "DefIMEWnd"@,
{
}

} // verus!

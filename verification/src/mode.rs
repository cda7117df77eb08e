//! Input modes, keyboard languages and the conversion-mode word of an input method.

use vstd::prelude::*;

verus! {

/// The mode that the input method is pinned to.
#[derive(Clone, Copy, PartialEq, Eq, Structural, Debug)]
pub enum ImeMode {
    /// Chinese input methods stay in their Chinese sub-mode.
    ChineseOnly,
    /// The keyboard stays on the English (US) layout.
    EnglishOnly,
}

/// What the procedures read of the user's settings.
#[derive(Clone, Copy, PartialEq, Eq, Structural, Debug)]
pub struct Config {
    /// Whether the tool enforces anything at all.
    pub master_switch: bool,
    /// The mode to enforce.
    pub ime_mode: ImeMode,
    /// Whether balloon tips are shown.
    pub show_notifications: bool,
}

/// Language identifier of Chinese (Simplified).
pub const LANG_CHINESE: usize = 0x0804;

/// Language identifier of English (United States).
pub const LANG_ENGLISH: usize = 0x0409;

impl ImeMode {
    /// The language identifier that belongs to the mode.
    pub open spec fn language(self) -> usize {
        match self {
            ImeMode::ChineseOnly => LANG_CHINESE,
            ImeMode::EnglishOnly => LANG_ENGLISH,
        }
    }

    /// The other mode.
    pub open spec fn other(self) -> ImeMode {
        match self {
            ImeMode::ChineseOnly => ImeMode::EnglishOnly,
            ImeMode::EnglishOnly => ImeMode::ChineseOnly,
        }
    }

    /// The conversion mode `cmode` with its native bit, the lowest one, forced to the value
    /// that the mode wants; the bits above it are those of `cmode`.
    pub open spec fn pinned(self, cmode: u32) -> int {
        cmode / 2 * 2 + if self is ChineseOnly {
            1int
        } else {
            0int
        }
    }

    /// The language identifier that belongs to the mode.
    pub fn target_language(self) -> (lang: usize)
        ensures
            lang == self.language(),
    {
        match self {
            ImeMode::ChineseOnly => LANG_CHINESE,
            ImeMode::EnglishOnly => LANG_ENGLISH,
        }
    }

    /// The other mode.
    pub fn toggled(self) -> (mode: ImeMode)
        ensures
            mode == self.other(),
    {
        match self {
            ImeMode::ChineseOnly => ImeMode::EnglishOnly,
            ImeMode::EnglishOnly => ImeMode::ChineseOnly,
        }
    }

    /// Sets or clears the native bit of a conversion mode and keeps every other bit.
    pub fn pin(self, cmode: u32) -> (pinned: u32)
        ensures
            pinned == self.pinned(cmode),
    {
        assert(cmode | 1 == cmode / 2 * 2 + 1) by (bit_vector);
        assert(cmode & !1 == cmode / 2 * 2) by (bit_vector);
        match self {
            ImeMode::ChineseOnly => cmode | 0x0001,
            ImeMode::EnglishOnly => cmode & !0x0001,
        }
    }
}

/// Whether a conversion mode has its native bit (`IME_CMODE_NATIVE`) set.
pub open spec fn native(cmode: u32) -> bool {
    cmode % 2 == 1
}

/// Whether a conversion mode has its native bit (`IME_CMODE_NATIVE`) set.
pub fn is_native(cmode: u32) -> (set: bool)
    ensures
        set == native(cmode),
{
    assert((cmode & 1 != 0) == (cmode % 2 == 1)) by (bit_vector);
    cmode & 0x0001 != 0
}

/// The language identifier in the low word of a keyboard layout handle.
pub open spec fn language_of(hkl: usize) -> usize {
    hkl % 0x1_0000
}

/// The language identifier in the low word of a keyboard layout handle.
pub fn layout_language(hkl: usize) -> (lang: usize)
    ensures
        lang == language_of(hkl),
{
    assert(hkl & 0xFFFF == hkl % 0x1_0000) by (bit_vector);
    hkl & 0xFFFF
}

/// Pinning a conversion mode touches its native bit alone.
pub proof fn law_pin_keeps_other_bits(mode: ImeMode, cmode: u32)
    ensures
        0 <= mode.pinned(cmode) <= u32::MAX,
        mode.pinned(cmode) / 2 == cmode as int / 2,
{
}

/// A pinned conversion mode is native exactly under [`ImeMode::ChineseOnly`].
pub proof fn law_pin_decides_native(mode: ImeMode, cmode: u32)
    ensures
        native(mode.pinned(cmode) as u32) == (mode is ChineseOnly),
{
    law_pin_keeps_other_bits(mode, cmode);
}

/// Pinning a second time changes nothing, and the last mode pinned is the one that counts.
pub proof fn law_last_pin_counts(first: ImeMode, last: ImeMode, cmode: u32)
    ensures
        last.pinned(first.pinned(cmode) as u32) == last.pinned(cmode),
{
    law_pin_keeps_other_bits(first, cmode);
}

/// Toggling leaves the mode, and toggling twice returns to it.
pub proof fn law_toggle_is_an_involution(mode: ImeMode)
    ensures
        mode.other() != mode,
        mode.other().other() == mode,
{
}

} // verus!

//! Keyboard layouts: which one to activate for a mode, and whether it took.

use vstd::prelude::*;
use vstd::string::*;

use crate::call::{Call, Reply};
use crate::mode;
use crate::mode::{layout_language, ImeMode};
use crate::script::{Procedure, Script, Step};
use crate::text;

verus! {

/// The layouts that a call stored in its buffer; the count may exceed it, or be negative.
pub open spec fn stored(count: i32, buffer: Seq<usize>) -> Seq<usize> {
    buffer.take(
        if count < 0 {
            0
        } else if count < buffer.len() {
            count as int
        } else {
            buffer.len() as int
        },
    )
}

/// Whether a layout belongs to a language.
pub open spec fn of_language(language: usize) -> spec_fn(usize) -> bool {
    |hkl: usize| mode::language_of(hkl) == language
}

/// Whether a layout belongs to a language and its high word is not zero, as with the layout of
/// a real input method.
pub open spec fn ime_of_language(language: usize) -> spec_fn(usize) -> bool {
    |hkl: usize| mode::language_of(hkl) == language && hkl >= 0x1_0000
}

/// The layout to use for a language: its first input method, else its first layout, else the
/// bare language identifier.
pub open spec fn preferred(language: usize, layouts: Seq<usize>) -> usize {
    let methods = layouts.filter(ime_of_language(language));
    let all = layouts.filter(of_language(language));
    if methods.len() > 0 {
        methods[0]
    } else if all.len() > 0 {
        all[0]
    } else {
        language
    }
}

/// What `layouts[i]` adds to a filtered list of the layouts before it.
proof fn lemma_filter_next(layouts: Seq<usize>, pred: spec_fn(usize) -> bool, i: int)
    requires
        0 <= i < layouts.len(),
    ensures
        layouts.take(i + 1).filter(pred) == if pred(layouts[i]) {
            layouts.take(i).filter(pred).push(layouts[i])
        } else {
            layouts.take(i).filter(pred)
        },
{
    reveal(Seq::filter);
    assert(layouts.take(i + 1).drop_last() =~= layouts.take(i));
}

/// The filtered list of a prefix is a prefix of the filtered list.
proof fn lemma_filter_prefix(layouts: Seq<usize>, pred: spec_fn(usize) -> bool, i: int)
    requires
        0 <= i <= layouts.len(),
    ensures
        layouts.filter(pred) == layouts.take(i).filter(pred) + layouts.skip(i).filter(pred),
{
    assert(layouts =~= layouts.take(i) + layouts.skip(i));
    Seq::filter_distributes_over_add(layouts.take(i), layouts.skip(i), pred);
}

/// How many layouts a call stored in its buffer.
fn stored_length(count: i32, buffer: &Vec<usize>) -> (length: usize)
    ensures
        length <= buffer.len(),
        length == stored(count, buffer@).len(),
{
    if count < 0 {
        0
    } else if (count as usize) < buffer.len() {
        count as usize
    } else {
        buffer.len()
    }
}

/// Picks the layout to use for a language out of what a call stored in its buffer.
pub fn choose_layout(language: usize, count: i32, buffer: &Vec<usize>) -> (hkl: usize)
    ensures
        hkl == preferred(language, stored(count, buffer@)),
{
    let length: usize = stored_length(count, buffer);
    let ghost layouts = stored(count, buffer@);
    let ghost methods = ime_of_language(language);
    let ghost all = of_language(language);
    let mut fallback: Option<usize> = None;
    let mut i: usize = 0;
    proof {
        reveal(Seq::filter);
    }
    while i < length
        invariant
            0 <= i <= length,
            length == layouts.len(),
            layouts == stored(count, buffer@),
            length <= buffer.len(),
            methods == ime_of_language(language),
            all == of_language(language),
            layouts.take(i as int).filter(methods).len() == 0,
            fallback is None ==> layouts.take(i as int).filter(all).len() == 0,
            fallback matches Some(hkl) ==> layouts.take(i as int).filter(all).len() > 0
                && layouts.take(i as int).filter(all)[0] == hkl,
        decreases length - i,
    {
        let hkl: usize = buffer[i];
        proof {
            lemma_filter_next(layouts, methods, i as int);
            lemma_filter_next(layouts, all, i as int);
            assert((hkl >> 16 != 0) == (hkl >= 0x1_0000)) by (bit_vector);
        }
        if layout_language(hkl) == language {
            if hkl >> 16 != 0 {
                proof {
                    lemma_filter_prefix(layouts, methods, i + 1);
                }
                return hkl;
            }
            if fallback.is_none() {
                fallback = Some(hkl);
            }
        }
        i = i + 1;
    }
    assert(layouts.take(length as int) =~= layouts);
    match fallback {
        Some(hkl) => hkl,
        None => language,
    }
}

/// Whether a layout is among those that a call stored in its buffer. The one that is picked for a
/// mode is, unless none of the mode's language is installed.
pub fn is_stored(hkl: usize, count: i32, buffer: &Vec<usize>) -> (found: bool)
    ensures
        found == stored(count, buffer@).contains(hkl),
{
    let length: usize = stored_length(count, buffer);
    let ghost layouts = stored(count, buffer@);
    let mut i: usize = 0;
    while i < length
        invariant
            0 <= i <= length,
            length == layouts.len(),
            layouts == stored(count, buffer@),
            length <= buffer.len(),
            forall|j: int| 0 <= j < i ==> layouts[j] != hkl,
        decreases length - i,
    {
        if buffer[i] == hkl {
            assert(layouts[i as int] == hkl);
            return true;
        }
        i = i + 1;
    }
    false
}

/// The layout to activate for a mode, out of those that are installed.
pub open spec fn resolve_script(mode: ImeMode) -> Script<usize> {
    Script::Ask(Call::LayoutCount, |r: Reply| resolve_of(mode, r->Total_0))
}

/// Looks at the list if there is one.
pub open spec fn resolve_of(mode: ImeMode, count: i32) -> Script<usize> {
    if count > 0 {
        resolve_list(mode, count as usize)
    } else {
        Script::Return(mode.language())
    }
}

/// Picks from the list.
pub open spec fn resolve_list(mode: ImeMode, count: usize) -> Script<usize> {
    Script::Ask(
        Call::LayoutList(count),
        |r: Reply|
            Script::Return(preferred(mode.language(), stored(r->Layouts_0, r->Layouts_1@))),
    )
}

/// What became of the layout of the tool's own thread.
#[derive(Clone, Copy, PartialEq, Eq, Structural, Debug)]
pub struct LayoutCheck {
    /// The layout that is active.
    pub hkl: usize,
    /// Its language.
    pub current: usize,
    /// The language that is wanted.
    pub target: usize,
}

/// Compares the language of the thread's own layout with the one that is wanted.
pub open spec fn verify_script(mode: ImeMode) -> Script<LayoutCheck> {
    Script::Ask(
        Call::KeyboardLayout(0),
        |r: Reply|
            Script::Return(
                LayoutCheck {
                    hkl: r->Handle_0,
                    current: mode::language_of(r->Handle_0),
                    target: mode.language(),
                },
            ),
    )
}

/// Procedure that finds the layout to activate for a mode.
#[derive(Clone, Copy, Debug)]
pub enum Resolve {
    /// Waits for the number of layouts.
    Count(ImeMode),
    /// Waits for a list of so many layouts.
    List(ImeMode, usize),
}

/// Starts to find the layout to activate for a mode.
pub fn resolve_target_hkl(ime_mode: ImeMode) -> (procedure: Resolve)
    ensures
        procedure.script() == resolve_script(ime_mode),
{
    Resolve::Count(ime_mode)
}

impl Procedure for Resolve {
    type Output = usize;

    open spec fn script(&self) -> Script<usize> {
        match *self {
            Resolve::Count(mode) => resolve_script(mode),
            Resolve::List(mode, count) => resolve_list(mode, count),
        }
    }

    proof fn lemma_asks(&self) {
    }

    fn pending(&self) -> (call: Call) {
        match *self {
            Resolve::Count(_) => Call::LayoutCount,
            Resolve::List(_, count) => Call::LayoutList(count),
        }
    }

    fn resume(self, reply: &Reply) -> (step: Step<Resolve, usize>) {
        match (self, reply) {
            (Resolve::Count(mode), Reply::Total(count)) => {
                if *count > 0 {
                    Step::Waits(Resolve::List(mode, *count as usize))
                } else {
                    Step::Over(mode.target_language())
                }
            },
            (Resolve::List(mode, _), Reply::Layouts(count, buffer)) => Step::Over(
                choose_layout(mode.target_language(), *count, buffer),
            ),
            _ => Step::Waits(self),
        }
    }
}

/// Procedure that compares the thread's own layout with the one that is wanted.
#[derive(Clone, Copy, Debug)]
pub struct Verify {
    /// The mode whose layout is wanted.
    pub mode: ImeMode,
}

/// Starts to compare the thread's own layout with the one that is wanted.
pub fn verify_current_layout(ime_mode: ImeMode) -> (procedure: Verify)
    ensures
        procedure.script() == verify_script(ime_mode),
{
    Verify { mode: ime_mode }
}

impl Procedure for Verify {
    type Output = LayoutCheck;

    open spec fn script(&self) -> Script<LayoutCheck> {
        verify_script(self.mode)
    }

    proof fn lemma_asks(&self) {
    }

    fn pending(&self) -> (call: Call) {
        Call::KeyboardLayout(0)
    }

    fn resume(self, reply: &Reply) -> (step: Step<Verify, LayoutCheck>) {
        match reply {
            Reply::Handle(hkl) => Step::Over(
                LayoutCheck {
                    hkl: *hkl,
                    current: layout_language(*hkl),
                    target: self.mode.target_language(),
                },
            ),
            _ => Step::Waits(self),
        }
    }
}

impl LayoutCheck {
    /// Whether the active layout has the language that is wanted.
    pub fn is_consistent(&self) -> (consistent: bool)
        ensures
            consistent == (self.current == self.target),
    {
        self.current == self.target
    }
}

/// The name of the layout to load for a mode: its language as eight hexadecimal digits.
pub open spec fn name_of(mode: ImeMode) -> Seq<char> {
    match mode {
        ImeMode::ChineseOnly => "00000804"@,
        ImeMode::EnglishOnly => "00000409"@,
    }
}

/// The name of the layout to load for a mode: its language as eight hexadecimal digits.
pub fn layout_name(mode: ImeMode) -> (name: &'static str)
    ensures
        name@ == name_of(mode),
{
    match mode {
        ImeMode::ChineseOnly => "00000804",
        ImeMode::EnglishOnly => "00000409",
    }
}

/// The name of the layout to load for a mode, in UTF-16 and with a terminating zero.
pub fn wide_layout_name(mode: ImeMode) -> (wide: Vec<u16>)
    ensures
        wide@ == name_of(mode).map_values(|c: char| c as u16).push(0u16),
{
    let name = layout_name(mode);
    proof {
        reveal_strlit("00000804");
        reveal_strlit("00000409");
    }
    let mut wide: Vec<u16> = Vec::new();
    let mut i: usize = 0;
    while i < 8
        invariant
            0 <= i <= 8,
            name@ == name_of(mode),
            name@.len() == 8,
            wide@ == name@.take(i as int).map_values(|c: char| c as u16),
        decreases 8 - i,
    {
        let c = name.get_char(i);
        wide.push(
            #[verifier::truncate]
            (c as u16),
        );
        i = i + 1;
        assert(wide@ =~= name@.take(i as int).map_values(|c: char| c as u16));
    }
    assert(name@.take(8) =~= name@);
    wide.push(0);
    wide
}

/// The layout for a mode always has the mode's language, whatever is installed.
pub proof fn law_layout_has_the_language(mode: ImeMode, layouts: Seq<usize>)
    ensures
        mode::language_of(preferred(mode.language(), layouts)) == mode.language(),
{
    broadcast use Seq::lemma_filter_pred;

    let methods = layouts.filter(ime_of_language(mode.language()));
    let all = layouts.filter(of_language(mode.language()));
    if methods.len() > 0 {
        assert(ime_of_language(mode.language())(methods[0]));
    } else if all.len() > 0 {
        assert(of_language(mode.language())(all[0]));
    }
}

/// The layout for a mode is an installed one exactly if one of its language is installed, and an
/// input method wherever an input method of its language is installed. Without either it is the
/// bare language identifier.
pub proof fn law_layout_is_installed(mode: ImeMode, layouts: Seq<usize>)
    ensures
        (exists|i: int|
            0 <= i < layouts.len() && of_language(mode.language())(#[trigger] layouts[i]))
            <==> layouts.contains(preferred(mode.language(), layouts)),
        (exists|i: int|
            0 <= i < layouts.len() && ime_of_language(mode.language())(#[trigger] layouts[i]))
            ==> preferred(mode.language(), layouts) >= 0x1_0000,
        (forall|i: int|
            0 <= i < layouts.len() ==> !of_language(mode.language())(#[trigger] layouts[i]))
            ==> preferred(mode.language(), layouts) == mode.language(),
{
    broadcast use {Seq::lemma_filter_pred, Seq::lemma_filter_contains};

    let language = mode.language();
    let methods = layouts.filter(ime_of_language(language));
    let all = layouts.filter(of_language(language));
    if methods.len() > 0 {
        lemma_filter_member(layouts, ime_of_language(language), 0);
        assert(ime_of_language(language)(methods[0]));
    }
    if all.len() > 0 {
        lemma_filter_member(layouts, of_language(language), 0);
        assert(of_language(language)(all[0]));
    }
    if exists|i: int| 0 <= i < layouts.len() && of_language(language)(#[trigger] layouts[i]) {
        let i = choose|i: int|
            0 <= i < layouts.len() && of_language(language)(#[trigger] layouts[i]);
        assert(all.contains(layouts[i]));
    }
    if exists|i: int| 0 <= i < layouts.len() && ime_of_language(language)(#[trigger] layouts[i]) {
        let i = choose|i: int|
            0 <= i < layouts.len() && ime_of_language(language)(#[trigger] layouts[i]);
        assert(methods.contains(layouts[i]));
    }
    if layouts.contains(preferred(language, layouts)) {
        law_layout_has_the_language(mode, layouts);
        let i = choose|i: int|
            0 <= i < layouts.len() && layouts[i] == preferred(language, layouts);
        assert(of_language(language)(layouts[i]));
    }
}

/// What a filtered list holds is in the list.
proof fn lemma_filter_member(layouts: Seq<usize>, pred: spec_fn(usize) -> bool, i: int)
    requires
        0 <= i < layouts.filter(pred).len(),
    ensures
        layouts.contains(layouts.filter(pred)[i]),
    decreases layouts.len(),
{
    reveal(Seq::filter);
    if layouts.len() > 0 {
        let before = layouts.drop_last();
        if i < before.filter(pred).len() {
            lemma_filter_member(before, pred, i);
            let j = choose|j: int| 0 <= j < before.len() && before[j] == before.filter(pred)[i];
            assert(layouts[j] == layouts.filter(pred)[i]);
        } else {
            assert(layouts[layouts.len() - 1] == layouts.filter(pred)[i]);
        }
    }
}

/// The name of the layout to load for a mode is the mode's language as eight hexadecimal digits.
pub proof fn law_layout_is_named_after_the_language(mode: ImeMode)
    ensures
        name_of(mode) == text::hexadecimal(mode.language() as nat, 8),
{
    reveal_strlit("00000804");
    reveal_strlit("00000409");
    reveal_with_fuel(text::hexadecimal, 9);
    assert(name_of(mode) =~= text::hexadecimal(mode.language() as nat, 8));
}

} // verus!

//! The icon resource of the tool: when it is compiled, with what, and what is linked.

use vstd::prelude::*;
use vstd::string::*;

verus! {

/// Whether a text ends with another one.
pub open spec fn ends_with(text: Seq<char>, ending: Seq<char>) -> bool {
    ending.len() <= text.len() && text.skip(text.len() - ending.len()) == ending
}

/// Whether a target's linker takes object files only, and no compiled resource files.
pub fn is_gnu_target(target: &str) -> (gnu: bool)
    ensures
        gnu == ends_with(target@, "-windows-gnu"@),
{
    let ending = "-windows-gnu";
    let length: usize = target.unicode_len();
    let ending_length: usize = ending.unicode_len();
    if ending_length > length {
        return false;
    }
    let start: usize = length - ending_length;
    let mut i: usize = 0;
    while i < ending_length
        invariant
            0 <= i <= ending_length,
            length == target@.len(),
            ending_length == ending@.len(),
            ending@ == "-windows-gnu"@,
            ending_length <= length,
            start == length - ending_length,
            forall|j: int| 0 <= j < i ==> target@[start + j] == #[trigger] ending@[j],
        decreases ending_length - i,
    {
        if target.get_char(start + i) != ending.get_char(i) {
            assert(target@.skip(start as int)[i as int] != ending@[i as int]);
            return false;
        }
        i = i + 1;
    }
    assert(target@.skip(start as int) =~= ending@);
    true
}

/// Whether a file is newer than another one, by their times of modification; a file without a
/// time is not newer, and one with a time is newer than one without.
pub open spec fn newer(a: Option<i128>, b: Option<i128>) -> bool {
    match (a, b) {
        (Some(a), Some(b)) => a > b,
        (Some(_), None) => true,
        (None, _) => false,
    }
}

/// Whether a file is newer than another one, by their times of modification; a file without a
/// time is not newer, and one with a time is newer than one without.
pub fn mtime_newer(a: Option<i128>, b: Option<i128>) -> (is_newer: bool)
    ensures
        is_newer == newer(a, b),
{
    match (a, b) {
        (Some(a), Some(b)) => a > b,
        (Some(_), None) => true,
        (None, _) => false,
    }
}

/// Whether an output has to be made from its source: it is missing, or older.
pub fn needs_build(present: bool, source: Option<i128>, output: Option<i128>) -> (needed: bool)
    ensures
        needed == (!present || newer(source, output)),
{
    !present || mtime_newer(source, output)
}

/// A compiler for resource scripts that makes object files.
#[derive(Clone, Copy, PartialEq, Eq, Structural, Debug)]
pub enum Windres {
    /// The one of the cross toolchain.
    Cross,
    /// The one of the native toolchain.
    Native,
}

impl Windres {
    /// The compiler to run after this one ended: the native one after the cross one, unless that
    /// succeeded, and none after the native one.
    pub fn after(self, succeeded: bool) -> (next: Option<Windres>)
        ensures
            next == (if self is Cross && !succeeded {
                Some(Windres::Native)
            } else {
                None
            }),
    {
        match self {
            Windres::Cross => {
                if succeeded {
                    None
                } else {
                    Some(Windres::Native)
                }
            },
            Windres::Native => None,
        }
    }

    /// The name of the program.
    pub fn program(self) -> (name: &'static str)
        ensures
            self is Cross ==> name@ == "x86_64-w64-mingw32-windres"@,
            self is Native ==> name@ == "windres"@,
    {
        match self {
            Windres::Cross => "x86_64-w64-mingw32-windres",
            Windres::Native => "windres",
        }
    }
}

/// The resource compiler to run for the other targets: the one of an installed Visual Studio, or
/// the one that the search path leads to.
pub fn rc_program(visual_studio: Option<&str>) -> (program: String)
    ensures
        visual_studio matches Some(path) ==> program@ == path@
            + "\\VC\\Tools\\MSVC\\14.XX.XXXXX\\bin\\Hostx64\\x64\\rc.exe"@,
        visual_studio is None ==> program@ == "rc"@,
{
    let mut program = String::new();
    match visual_studio {
        Some(path) => {
            program.append(path);
            program.append("\\VC\\Tools\\MSVC\\14.XX.XXXXX\\bin\\Hostx64\\x64\\rc.exe");
            assert(program@ =~= path@
                + "\\VC\\Tools\\MSVC\\14.XX.XXXXX\\bin\\Hostx64\\x64\\rc.exe"@);
        },
        None => {
            program.append("rc");
            assert(program@ =~= "rc"@);
        },
    }
    program
}

/// What to do once the resource compiler has ended.
#[derive(Clone, Copy, PartialEq, Eq, Structural, Debug)]
pub enum RcOutcome {
    /// The resource was compiled.
    Compiled,
    /// It was not, and the file that is there stays.
    KeepExisting,
    /// It was not, and an empty file takes its place.
    CreateEmpty,
}

/// What to do once the resource compiler has ended: a file that is there is never replaced by an
/// empty one.
pub fn rc_outcome(succeeded: bool, output_exists: bool) -> (outcome: RcOutcome)
    ensures
        outcome == RcOutcome::Compiled <==> succeeded,
        outcome == RcOutcome::KeepExisting <==> !succeeded && output_exists,
        outcome == RcOutcome::CreateEmpty <==> !succeeded && !output_exists,
{
    if succeeded {
        RcOutcome::Compiled
    } else if output_exists {
        RcOutcome::KeepExisting
    } else {
        RcOutcome::CreateEmpty
    }
}

/// Of two files at most one is newer than the other, and none is newer than itself.
pub proof fn law_newer_is_a_strict_order(a: Option<i128>, b: Option<i128>, c: Option<i128>)
    ensures
        !newer(a, a),
        newer(a, b) ==> !newer(b, a),
        newer(a, b) && newer(b, c) ==> newer(a, c),
{
}

/// A text ends with another one exactly if it is some text followed by that one.
pub proof fn law_ending(text: Seq<char>, ending: Seq<char>)
    ensures
        ends_with(text, ending) <==> exists|start: Seq<char>| text == #[trigger] (start + ending),
{
    if ends_with(text, ending) {
        let start = text.take(text.len() - ending.len());
        assert(text =~= start + ending);
    }
    if exists|start: Seq<char>| text == #[trigger] (start + ending) {
        let start = choose|start: Seq<char>| text == #[trigger] (start + ending);
        assert(text.skip(text.len() - ending.len()) =~= ending);
    }
}

/// Of two files with times the one with the later time is newer; a file with a time is newer than
/// one without, and a file without a time is newer than none.
pub proof fn law_newer_goes_by_time(a: i128, b: i128, other: Option<i128>)
    ensures
        a > b ==> newer(Some(a), Some(b)),
        a <= b ==> !newer(Some(a), Some(b)),
        newer(Some(a), None),
        !newer(None, other),
{
}

} // verus!

//! The command line: a flag that asks for help and a flag that turns on
//! debug output.

use vstd::prelude::*;

verus! {

/// What the command line asks of a run.
#[derive(Clone, Copy, Debug, PartialEq, Eq, Structural)]
pub struct AppOptions {
    /// Whether every input event is printed.
    pub debug: bool,
}

/// Whether one of the arguments is `flag`, letter for letter.
pub open spec fn mentions(args: Seq<String>, flag: Seq<char>) -> bool {
    exists|i: int| 0 <= i < args.len() && (#[trigger] args[i])@ == flag
}

/// Whether one of the arguments is `flag`, letter for letter.
pub fn has_flag(args: &Vec<String>, flag: &str) -> (found: bool)
    ensures
        found == mentions(args@, flag@),
{
    let wanted: String = flag.to_owned();
    let mut i: usize = 0;
    while i < args.len()
        invariant
            i <= args.len(),
            wanted@ == flag@,
            forall|j: int| 0 <= j < i ==> (#[trigger] args@[j])@ != flag@,
        decreases args.len() - i,
    {
        if args[i] == wanted {
            return true;
        }
        i += 1;
    }
    false
}

/// The options that the arguments ask for, the program's own name left out;
/// `None` where they ask for help with `-h`, which outranks everything else.
/// Debug output is on where `-d` is among them.
pub fn get_app_options(args: &Vec<String>) -> (options: Option<AppOptions>)
    ensures
        mentions(args@, "-h"@) ==> options is None,
        !mentions(args@, "-h"@) ==> options == Some(AppOptions { debug: mentions(args@, "-d"@) }),
{
    if has_flag(args, "-h") {
        None
    } else {
        Some(AppOptions { debug: has_flag(args, "-d") })
    }
}

/// The text that is shown where help is asked for.
pub fn usage() -> (text: &'static str)
    ensures
        text@ == "Options:\n  -d  Debug (show events)"@,
{
    "Options:\n  -d  Debug (show events)"
}

} // verus!

//! On-demand elevation: the decisions around relaunching the program with
//! administrator rights. Querying the process token and launching are the
//! caller's part (they call Windows).

use vstd::prelude::*;

use crate::models::str_eq;
use crate::text::{chars_of, push_char};

verus! {

/// Command-line flag the elevated instance is launched with so that it opens
/// the cleanup view at once.
pub const CLEANUP_FLAG: &'static str = "--cleanup";

/// Whether one of the command-line arguments is the cleanup flag.
pub fn has_cleanup_flag(args: &[String]) -> (r: bool)
    ensures
        r == exists|i: int| 0 <= i < args@.len() && (#[trigger] args@[i])@ == CLEANUP_FLAG@,
{
    let mut i: usize = 0;
    while i < args.len()
        invariant
            i <= args@.len(),
            forall|k: int| 0 <= k < i ==> (#[trigger] args@[k])@ != CLEANUP_FLAG@,
        decreases args.len() - i,
    {
        if str_eq(args[i].as_str(), CLEANUP_FLAG) {
            return true;
        }
        i = i + 1;
    }
    false
}

/// The arguments joined with single spaces.
pub open spec fn joined(args: Seq<Seq<char>>) -> Seq<char>
    decreases args.len(),
{
    if args.len() == 0 {
        seq![]
    } else if args.len() == 1 {
        args[0]
    } else {
        joined(args.drop_last()) + seq![' '] + args.last()
    }
}

/// The parameter text handed to the elevated instance (`args.join(" ")`).
pub fn join_args(args: &[&str]) -> (s: String)
    ensures
        s@ == joined(args@.map_values(|a: &str| a@)),
{
    let ghost av = args@.map_values(|a: &str| a@);
    let mut s = String::new();
    let mut i: usize = 0;
    while i < args.len()
        invariant
            i <= args@.len(),
            av == args@.map_values(|a: &str| a@),
            s@ == joined(av.take(i as int)),
        decreases args.len() - i,
    {
        let ghost before = s@;
        if i > 0 {
            push_char(&mut s, ' ');
        }
        let cs = chars_of(args[i]);
        let ghost mid = s@;
        let mut j: usize = 0;
        while j < cs.len()
            invariant
                j <= cs@.len(),
                s@ == mid + cs@.take(j as int),
            decreases cs.len() - j,
        {
            push_char(&mut s, cs[j]);
            assert(cs@.take(j + 1) =~= cs@.take(j as int).push(cs@[j as int]));
            j = j + 1;
        }
        assert(cs@.take(cs@.len() as int) =~= cs@);
        assert(av.take(i + 1).drop_last() =~= av.take(i as int));
        if i > 0 {
            assert(s@ =~= before + seq![' '] + av[i as int]);
        } else {
            assert(av.take(1) =~= seq![av[0]]);
        }
        i = i + 1;
    }
    assert(av.take(args@.len() as int) =~= av);
    s
}

pub open spec fn relaunch_error_text() -> Seq<char> {
    "Elevation was cancelled or failed."@
}

/// What a `ShellExecuteW` return code means: above 32 the elevated instance
/// was launched; anything else means the user declined or the launch failed.
pub fn relaunch_outcome(code: isize) -> (r: Result<(), String>)
    ensures
        r is Ok <==> code > 32,
        match r {
            Err(e) => e@ == relaunch_error_text(),
            Ok(_) => true,
        },
{
    if code > 32 {
        Ok(())
    } else {
        Err(String::from_str("Elevation was cancelled or failed."))
    }
}

pub open spec fn unsupported_text() -> Seq<char> {
    "Elevation is only supported on Windows."@
}

/// Whether the process runs elevated, where the platform has no elevation
/// (everywhere but Windows): never.
pub fn is_elevated() -> (r: bool)
    ensures
        !r,
{
    false
}

/// Relaunching elevated, where the platform has no elevation (everywhere but
/// Windows): always refused, whatever the arguments.
pub fn relaunch_as_admin(args: &[&str]) -> (r: Result<(), String>)
    ensures
        match r {
            Err(e) => e@ == unsupported_text(),
            Ok(_) => false,
        },
{
    Err(String::from_str("Elevation is only supported on Windows."))
}

} // verus!

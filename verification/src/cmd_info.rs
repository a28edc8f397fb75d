//! Argument matching for the stand-alone `info` command:
//! `<invocation> info <task>`.

use vstd::prelude::*;
use crate::strutil::str_eq;

verus! {

/// An invocation of the `info` command on one task.
#[derive(Debug, PartialEq)]
pub struct Invocation {
    /// The task the information is asked for, as given on the command line.
    pub task: String,
}

impl Invocation {
    /// Match an argument list of the form `<invocation> info <task>`:
    /// exactly three arguments, the second the literal `info`.
    pub fn arg_match(args: &Vec<String>) -> (r: Option<Invocation>)
        ensures
            r is Some <==> (args@.len() == 3 && args@[1]@ == "info"@),
            r is Some ==> r.unwrap().task@ == args@[2]@,
    {
        if args.len() == 3 && str_eq(args[1].as_str(), "info") {
            Some(Invocation { task: args[2].clone() })
        } else {
            None
        }
    }
}

} // verus!

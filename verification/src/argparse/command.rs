//! The whole command line: invocation name, then a subcommand, nothing left
//! over.

use vstd::prelude::*;
use crate::argparse::args::string_views;
use crate::argparse::subcommand::{
    Subcommand, is_subcommand_of, subcommand_matches, subcommand_next,
};

verus! {

/// The overall command the invocation asks for.
#[derive(Debug, PartialEq)]
pub struct Command {
    pub command_name: String,
    pub subcommand: Subcommand,
}

/// Why a command line was not recognized.
#[derive(Debug, PartialEq, Eq, Structural)]
pub enum ParseError {
    /// No alternative matched the whole argument list.
    NotRecognized,
}

/// A whole argument list is a command: an invocation name, then a
/// subcommand that consumes everything that is left.
pub open spec fn command_matches(av: Seq<Seq<char>>) -> bool {
    av.len() >= 1 && subcommand_matches(av, 1) && subcommand_next(av, 1) == av.len()
}

impl Command {
    /// Parse a whole argument list, requiring every argument consumed.
    pub fn parse(args: &Vec<String>) -> (r: Option<Command>)
        ensures
            r is Some <==> command_matches(string_views(args@)),
            r is Some ==> ({
                let cmd = r.unwrap();
                &&& cmd.command_name@ == string_views(args@)[0]
                &&& is_subcommand_of(cmd.subcommand, string_views(args@), 1)
            }),
    {
        let ghost av = string_views(args@);
        if args.len() == 0 {
            return None;
        }
        proof {
            assert(av[0] == args@[0]@);
        }
        match Subcommand::parse(args, 1) {
            Some((next, subcommand)) => {
                if next == args.len() {
                    let command_name = args[0].clone();
                    Some(Command { command_name, subcommand })
                } else {
                    None
                }
            },
            None => None,
        }
    }

    /// Parse a command from the given list of strings; an argument list no
    /// alternative matches in full is reported as not recognized.
    pub fn from_argv(input: &Vec<String>) -> (r: Result<Command, ParseError>)
        ensures
            r is Ok <==> command_matches(string_views(input@)),
            r is Ok ==> ({
                let cmd = r.unwrap();
                &&& cmd.command_name@ == string_views(input@)[0]
                &&& is_subcommand_of(cmd.subcommand, string_views(input@), 1)
            }),
            r is Err ==> r.unwrap_err() == ParseError::NotRecognized,
    {
        match Command::parse(input) {
            Some(cmd) => Ok(cmd),
            None => Err(ParseError::NotRecognized),
        }
    }
}

} // verus!

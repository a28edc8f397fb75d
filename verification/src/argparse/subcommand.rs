//! The subcommand part of a command line: which operation to execute.
//!
//! The alternatives are tried in a fixed order — add, modify, list, info,
//! gc, sync — and the first whose shape matches wins.

use vstd::prelude::*;
use crate::argparse::args::string_views;
use crate::argparse::filter::{Filter, filter_end, is_filter_of};
use crate::argparse::modification::{Modification, is_modification_of};
use crate::argparse::report::Report;
use crate::strutil::str_eq;

verus! {

/// The specific operation a command line asks for.
#[derive(Debug, PartialEq)]
pub enum Subcommand {
    /// Add a new task.
    Add(Modification),
    /// Modify the tasks a filter selects.
    Modify { filter: Filter, modification: Modification },
    /// List tasks, as a report describes.
    List(Report),
    /// Per-task information; `debug` selects the raw form.
    Info { filter: Filter, debug: bool },
    /// Collect garbage.
    Gc,
    /// Synchronize with the server.
    Sync,
}

pub open spec fn matches_add(av: Seq<Seq<char>>, i: int) -> bool {
    i < av.len() && av[i] == "add"@
}

pub open spec fn matches_modify(av: Seq<Seq<char>>, i: int) -> bool {
    filter_end(av, i) < av.len() && av[filter_end(av, i)] == "modify"@
}

pub open spec fn matches_list(av: Seq<Seq<char>>, i: int) -> bool {
    filter_end(av, i) < av.len() && av[filter_end(av, i)] == "list"@
}

pub open spec fn matches_info(av: Seq<Seq<char>>, i: int) -> bool {
    filter_end(av, i) < av.len() && (av[filter_end(av, i)] == "info"@ || av[filter_end(av, i)]
        == "debug"@)
}

pub open spec fn matches_gc(av: Seq<Seq<char>>, i: int) -> bool {
    i < av.len() && av[i] == "gc"@
}

pub open spec fn matches_sync(av: Seq<Seq<char>>, i: int) -> bool {
    i < av.len() && av[i] == "sync"@
}

/// Some alternative matches at `i`.
pub open spec fn subcommand_matches(av: Seq<Seq<char>>, i: int) -> bool {
    ||| matches_add(av, i)
    ||| matches_modify(av, i)
    ||| matches_list(av, i)
    ||| matches_info(av, i)
    ||| matches_gc(av, i)
    ||| matches_sync(av, i)
}

/// Where the winning alternative stops reading, when one matches.
pub open spec fn subcommand_next(av: Seq<Seq<char>>, i: int) -> int {
    if matches_add(av, i) || matches_modify(av, i) {
        av.len() as int
    } else if matches_list(av, i) || matches_info(av, i) {
        filter_end(av, i) + 1
    } else {
        i + 1
    }
}

/// What the winning alternative builds, when one matches.
pub open spec fn is_subcommand_of(s: Subcommand, av: Seq<Seq<char>>, i: int) -> bool {
    if matches_add(av, i) {
        s matches Subcommand::Add(m) && is_modification_of(m, av, i + 1)
    } else if matches_modify(av, i) {
        s matches Subcommand::Modify { filter, modification } && is_filter_of(filter, av, i)
            && is_modification_of(modification, av, filter_end(av, i) + 1)
    } else if matches_list(av, i) {
        s matches Subcommand::List(rep) && rep.filter matches Some(f) && is_filter_of(f, av, i)
    } else if matches_info(av, i) {
        s matches Subcommand::Info { filter, debug } && is_filter_of(filter, av, i) && debug == (
        av[filter_end(av, i)] == "debug"@)
    } else if matches_gc(av, i) {
        s == Subcommand::Gc
    } else if matches_sync(av, i) {
        s == Subcommand::Sync
    } else {
        false
    }
}

impl Subcommand {
    /// Parse a subcommand at `start`: the first matching alternative, or
    /// `None` when none matches.
    pub fn parse(args: &Vec<String>, start: usize) -> (r: Option<(usize, Subcommand)>)
        requires
            start <= args@.len(),
        ensures
            r is Some <==> subcommand_matches(string_views(args@), start as int),
            r is Some ==> ({
                let (next, s) = r.unwrap();
                &&& next == subcommand_next(string_views(args@), start as int)
                &&& start <= next <= args@.len()
                &&& is_subcommand_of(s, string_views(args@), start as int)
            }),
    {
        let ghost av = string_views(args@);
        proof {
            if start < args@.len() {
                assert(av[start as int] == args@[start as int]@);
            }
        }
        if start < args.len() && str_eq(args[start].as_str(), "add") {
            let (next, m) = Modification::parse(args, start + 1);
            return Some((next, Subcommand::Add(m)));
        }
        let (j, filter) = Filter::parse(args, start);
        proof {
            if j < args@.len() {
                assert(av[j as int] == args@[j as int]@);
            }
        }
        if j < args.len() && str_eq(args[j].as_str(), "modify") {
            let (next, m) = Modification::parse(args, j + 1);
            return Some((next, Subcommand::Modify { filter, modification: m }));
        }
        if j < args.len() && str_eq(args[j].as_str(), "list") {
            return Some((j + 1, Subcommand::List(Report { filter: Some(filter) })));
        }
        if j < args.len() && (str_eq(args[j].as_str(), "info") || str_eq(
            args[j].as_str(),
            "debug",
        )) {
            let debug = str_eq(args[j].as_str(), "debug");
            proof {
                reveal_strlit("info");
                reveal_strlit("debug");
            }
            return Some((j + 1, Subcommand::Info { filter, debug }));
        }
        if start < args.len() && str_eq(args[start].as_str(), "gc") {
            return Some((start + 1, Subcommand::Gc));
        }
        if start < args.len() && str_eq(args[start].as_str(), "sync") {
            return Some((start + 1, Subcommand::Sync));
        }
        None
    }
}

} // verus!

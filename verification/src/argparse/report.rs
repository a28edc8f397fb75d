//! The report part of a command line: which tasks a listing shows.

use vstd::prelude::*;
use crate::argparse::args::string_views;
use crate::argparse::filter::{Filter, filter_end, is_filter_of};

verus! {

/// A report specifies a filter over the tasks to display.
#[derive(Debug, PartialEq)]
pub struct Report {
    pub filter: Option<Filter>,
}

impl Report {
    /// Parse a report: the leading filter, always present.
    pub fn parse(args: &Vec<String>, start: usize) -> (r: (usize, Report))
        requires
            start <= args@.len(),
        ensures
            ({
                let (next, rep) = r;
                &&& start <= next <= args@.len()
                &&& next == filter_end(string_views(args@), start as int)
                &&& rep.filter is Some
                &&& is_filter_of(rep.filter.unwrap(), string_views(args@), start as int)
            }),
    {
        let (next, filter) = Filter::parse(args, start);
        (next, Report { filter: Some(filter) })
    }
}

} // verus!

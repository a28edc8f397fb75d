//! The filter part of a command line: which tasks a subcommand applies to.

use vstd::prelude::*;
use crate::argparse::args::{id_list, id_list_ok, split_ids, string_views};

verus! {

/// A filter selects a set of tasks: a list of ids, or nothing (all tasks).
#[derive(Debug, PartialEq, Default, Clone)]
pub struct Filter {
    /// Ids — integers or UUID prefixes — collected from every leading
    /// id-list argument; `None` when no such argument was present.
    pub id_list: Option<Vec<String>>,
}

/// Where the leading run of id-list arguments ends.
pub open spec fn filter_end(av: Seq<Seq<char>>, i: int) -> int
    decreases av.len() - i,
{
    if i < 0 || i >= av.len() {
        i
    } else if id_list_ok(av[i]) {
        filter_end(av, i + 1)
    } else {
        i
    }
}

/// The ids of that run, in order, lists concatenated.
pub open spec fn filter_ids(av: Seq<Seq<char>>, i: int) -> Seq<Seq<char>>
    decreases av.len() - i,
{
    if i < 0 || i >= av.len() {
        Seq::empty()
    } else if id_list_ok(av[i]) {
        split_ids(av[i]) + filter_ids(av, i + 1)
    } else {
        Seq::empty()
    }
}

/// What `Filter::parse` leaves in a filter parsed at position `i`.
pub open spec fn is_filter_of(f: Filter, av: Seq<Seq<char>>, i: int) -> bool {
    &&& (filter_end(av, i) == i ==> f.id_list is None)
    &&& (filter_end(av, i) > i ==> f.id_list is Some && string_views(f.id_list.unwrap()@)
        == filter_ids(av, i))
}

impl Filter {
    /// Consume every leading argument that is an id list, concatenating the
    /// ids; return the position of the first argument that is not.
    pub fn parse(args: &Vec<String>, start: usize) -> (r: (usize, Filter))
        requires
            start <= args@.len(),
        ensures
            ({
                let (next, f) = r;
                &&& start <= next <= args@.len()
                &&& next == filter_end(string_views(args@), start as int)
                &&& is_filter_of(f, string_views(args@), start as int)
            }),
    {
        let ghost av = string_views(args@);
        let n = args.len();
        let mut ids: Vec<String> = Vec::new();
        let mut i = start;
        while i < n
            invariant
                n == args@.len(),
                start <= i <= n,
                av == string_views(args@),
                forall|j: int| start <= j < i ==> id_list_ok(#[trigger] av[j]),
                filter_end(av, start as int) == filter_end(av, i as int),
                filter_ids(av, start as int) == string_views(ids@) + filter_ids(av, i as int),
            decreases n - i,
        {
            let ghost ids0 = ids@;
            match id_list(args[i].as_str()) {
                Some(mut one) => {
                    proof {
                        assert(av[i as int] == args@[i as int]@);
                        assert(string_views(one@) == split_ids(av[i as int]));
                    }
                    ids.append(&mut one);
                    proof {
                        assert(string_views(ids@) =~~= string_views(ids0) + split_ids(
                            av[i as int],
                        ));
                        assert(filter_ids(av, start as int) =~~= string_views(ids@) + filter_ids(
                            av,
                            i + 1,
                        ));
                    }
                },
                None => {
                    proof {
                        assert(av[i as int] == args@[i as int]@);
                        assert(filter_end(av, i as int) == i as int);
                        assert(filter_ids(av, i as int) =~~= Seq::<Seq<char>>::empty());
                        assert(filter_ids(av, start as int) =~~= string_views(ids@));
                    }
                    if i == start {
                        return (i, Filter { id_list: None });
                    }
                    return (i, Filter { id_list: Some(ids) });
                },
            }
            i += 1;
        }
        proof {
            assert(filter_end(av, i as int) == i as int);
            assert(filter_ids(av, start as int) =~~= string_views(ids@));
        }
        if i == start {
            (i, Filter { id_list: None })
        } else {
            (i, Filter { id_list: Some(ids) })
        }
    }
}

} // verus!

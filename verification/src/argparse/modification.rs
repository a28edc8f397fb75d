//! The modification part of a command line: what to change on the selected
//! tasks.

use vstd::prelude::*;
use vstd::string::StringExecFns;
use crate::argparse::args::string_views;
use crate::strutil::str_eq;

verus! {

/// The lifecycle state a modification can move a task to.
#[derive(Debug, PartialEq, Eq, Structural, Clone, Copy)]
pub enum Status {
    Pending,
    Completed,
    Deleted,
}

/// A modification of a task: setting the description, completing it, and so
/// on.
#[derive(Debug, PartialEq, Default, Clone)]
pub struct Modification {
    /// The new description: every argument that is not `done`, joined with
    /// single spaces, in order.
    pub description: Option<String>,
    /// `Completed` as soon as some argument is the literal `done`.
    pub status: Option<Status>,
}

/// The description words: the arguments from `i` on, the literal `done`
/// dropped.
pub open spec fn words(av: Seq<Seq<char>>, i: int) -> Seq<Seq<char>>
    decreases av.len() - i,
{
    if i < 0 || i >= av.len() {
        Seq::empty()
    } else if av[i] == "done"@ {
        words(av, i + 1)
    } else {
        seq![av[i]] + words(av, i + 1)
    }
}

/// Some argument from `i` on is the literal `done`.
pub open spec fn has_done(av: Seq<Seq<char>>, i: int) -> bool {
    exists|j: int| i <= j < av.len() && av[j] == "done"@
}

/// Words joined with single spaces.
pub open spec fn joined(ws: Seq<Seq<char>>) -> Seq<char>
    decreases ws.len(),
{
    if ws.len() == 0 {
        Seq::empty()
    } else if ws.len() == 1 {
        ws[0]
    } else {
        ws[0] + seq![' '] + joined(ws.drop_first())
    }
}

/// Appending a word extends the joined text by a space and the word (or is
/// the word itself, for the first one).
pub proof fn lemma_joined_push(ws: Seq<Seq<char>>, w: Seq<char>)
    ensures
        ws.len() == 0 ==> joined(ws.push(w)) == w,
        ws.len() > 0 ==> joined(ws.push(w)) == joined(ws) + seq![' '] + w,
    decreases ws.len(),
{
    if ws.len() == 0 {
        assert(joined(ws.push(w)) == ws.push(w)[0]);
        assert(ws.push(w)[0] == w);
    } else if ws.len() == 1 {
        assert(ws.push(w).drop_first() =~= seq![w]);
        assert(joined(seq![w]) == seq![w][0]);
        assert(joined(ws.push(w)) =~= ws[0] + seq![' '] + w);
        assert(joined(ws) == ws[0]);
    } else {
        assert(ws.push(w).drop_first() =~= ws.drop_first().push(w));
        lemma_joined_push(ws.drop_first(), w);
        assert(joined(ws.push(w)) =~= joined(ws) + seq![' '] + w);
    }
}

/// What `Modification::parse` builds from the arguments from `i` on.
pub open spec fn is_modification_of(m: Modification, av: Seq<Seq<char>>, i: int) -> bool {
    &&& m.status == (if has_done(av, i) {
        Some(Status::Completed)
    } else {
        None::<Status>
    })
    &&& (words(av, i).len() == 0 ==> m.description is None)
    &&& (words(av, i).len() > 0 ==> m.description is Some && m.description.unwrap()@ == joined(
        words(av, i),
    ))
}

impl Modification {
    /// Consume all remaining arguments: each `done` completes the task,
    /// every other argument becomes a word of the new description.
    pub fn parse(args: &Vec<String>, start: usize) -> (r: (usize, Modification))
        requires
            start <= args@.len(),
        ensures
            ({
                let (next, m) = r;
                &&& next == args@.len()
                &&& is_modification_of(m, string_views(args@), start as int)
            }),
    {
        let ghost av = string_views(args@);
        let n = args.len();
        let mut desc: String = String::new();
        let mut have_desc: bool = false;
        let mut done: bool = false;
        let ghost mut ws: Seq<Seq<char>> = Seq::empty();
        let mut i = start;
        proof {
            assert(words(av, start as int) =~~= ws + words(av, start as int));
        }
        while i < n
            invariant
                n == args@.len(),
                start <= i <= n,
                av == string_views(args@),
                words(av, start as int) == ws + words(av, i as int),
                done == (exists|j: int| start <= j < i && av[j] == "done"@),
                have_desc == (ws.len() > 0),
                have_desc ==> desc@ == joined(ws),
            decreases n - i,
        {
            proof {
                assert(av[i as int] == args@[i as int]@);
            }
            if str_eq(args[i].as_str(), "done") {
                done = true;
                proof {
                    assert(av[i as int] == "done"@);
                    assert(words(av, i as int) == words(av, i + 1));
                }
            } else {
                let ghost ws0 = ws;
                proof {
                    lemma_joined_push(ws0, av[i as int]);
                    assert(words(av, i as int) =~~= seq![av[i as int]] + words(av, i + 1));
                    assert(ws0 + (seq![av[i as int]] + words(av, i + 1)) =~~= ws0.push(
                        av[i as int],
                    ) + words(av, i + 1));
                }
                if have_desc {
                    proof {
                        reveal_strlit(" ");
                        assert(" "@ =~= seq![' ']);
                    }
                    desc.append(" ");
                    desc.append(args[i].as_str());
                } else {
                    desc = args[i].clone();
                    have_desc = true;
                }
                proof {
                    ws = ws0.push(av[i as int]);
                    assert(desc@ == joined(ws));
                }
            }
            i += 1;
        }
        proof {
            assert(words(av, i as int) =~~= Seq::<Seq<char>>::empty());
            assert(words(av, start as int) =~~= ws);
            assert(done == has_done(av, start as int));
        }
        let m = if have_desc {
            Modification { description: Some(desc), status: if done {
                Some(Status::Completed)
            } else {
                None
            } }
        } else {
            Modification { description: None, status: if done {
                Some(Status::Completed)
            } else {
                None
            } }
        };
        (n, m)
    }
}

} // verus!

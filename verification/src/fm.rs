//! The file manager: the work queue of files still to be aggregated into
//! one compilation unit.  Reading a file's text is the caller's concern;
//! this type only keeps the queue and harvests the paths that include
//! statements name.
use vstd::prelude::*;

use std::collections::VecDeque;

use crate::ast::{Statement, StatementV};

verus! {

broadcast use vstd::std_specs::vec::group_vec_axioms, vstd::seq::group_seq_axioms, crate::ast::lemma_stmt_seq_dv;

/// The paths that the include statements of a sequence name, in order.
pub open spec fn include_names(s: Seq<StatementV>) -> Seq<Seq<char>>
    decreases s.len(),
{
    if s.len() == 0 {
        Seq::empty()
    } else {
        let r = include_names(s.drop_last());
        match s.last() {
            StatementV::Include(p) => r.push(p),
            _ => r,
        }
    }
}

pub struct FileManager {
    file_stack: VecDeque<String>,
}

impl FileManager {
    /// The queued file paths, front first.
    pub closed spec fn files(&self) -> Seq<Seq<char>> {
        self.file_stack@.map_values(|s: String| s@)
    }

    pub fn new() -> (r: Self)
        ensures
            r.files() == Seq::<Seq<char>>::empty(),
    {
        let r = FileManager { file_stack: VecDeque::new() };
        proof {
            assert(r.files() =~= Seq::<Seq<char>>::empty());
        }
        r
    }

    pub fn is_empty(&self) -> (r: bool)
        ensures
            r == (self.files().len() == 0),
    {
        self.file_stack.len() == 0
    }

    /// Removes and returns the path of the next file to aggregate.
    pub fn next_file(&mut self) -> (r: Option<String>)
        ensures
            old(self).files().len() == 0 ==> r is None && final(self).files() == old(self).files(),
            old(self).files().len() > 0 ==> (match r {
                Some(p) => p@ == old(self).files()[0],
                None => false,
            }) && final(self).files() == old(self).files().skip(1),
    {
        let r = self.file_stack.pop_front();
        proof {
            if old(self).files().len() > 0 {
                assert(final(self).files() =~= old(self).files().skip(1));
            }
        }
        r
    }

    /// Queues, in front of everything already waiting, the files that the
    /// include statements of `parsed` name; the last include of `parsed`
    /// ends up first in the queue.
    pub fn extend_file_stack(&mut self, parsed: &Vec<Statement>)
        ensures
            final(self).files() == include_names(crate::ast::stmt_seq_dv(parsed@)).reverse() + old(
                self,
            ).files(),
    {
        let ghost dv = crate::ast::stmt_seq_dv(parsed@);
        let ghost f0 = self.files();
        let n = parsed.len();
        let mut i: usize = 0;
        proof {
            assert(dv.take(0int) =~= Seq::<StatementV>::empty());
            assert(include_names(dv.take(0int)).reverse() + f0 =~= f0);
        }
        while i < n
            invariant
                i <= n,
                n == parsed@.len(),
                dv == crate::ast::stmt_seq_dv(parsed@),
                dv.len() == n,
                self.files() == include_names(dv.take(i as int)).reverse() + f0,
            decreases n - i,
        {
            proof {
                assert(dv.take(i + 1).drop_last() =~= dv.take(i as int));
                assert(dv.take(i + 1).last() == dv[i as int]);
                assert(dv[i as int] == parsed@[i as int].deep_view());
            }
            match &parsed[i] {
                Statement::IncludeStatement(file_name) => {
                    let ghost before = self.files();
                    self.file_stack.push_front(file_name.clone());
                    proof {
                        assert(self.files() =~= seq![file_name@] + before);
                        let names = include_names(dv.take(i + 1));
                        assert(names == include_names(dv.take(i as int)).push(file_name@));
                        assert(names.reverse() =~= seq![file_name@] + include_names(
                            dv.take(i as int),
                        ).reverse());
                        assert(seq![file_name@] + (include_names(dv.take(i as int)).reverse() + f0)
                            =~= (seq![file_name@] + include_names(dv.take(i as int)).reverse())
                            + f0);
                    }
                },
                _ => {},
            }
            i += 1;
        }
        proof {
            assert(dv.take(n as int) =~= dv);
        }
    }
}

} // verus!

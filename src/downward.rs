//! The downward step: from the ancestor found, into the one directory that
//! a glob pattern names below it.

use vstd::prelude::*;

use crate::error::UpError;
use crate::path::{pushed, DirPath};

verus! {

/// One entry that the pattern matched.
pub struct Candidate {
    /// The entry's path, relative to the ancestor (or absolute).
    pub path: Vec<u8>,
    /// Whether the entry is a directory; `None` when its metadata could not
    /// be read.
    pub is_dir: Option<bool>,
}

/// An entry counts as a directory unless it is known not to be one.
pub open spec fn counts_as_dir(c: Candidate) -> bool {
    c.is_dir != Some(false)
}

/// The paths of the entries that count as directories, in their order.
pub open spec fn dir_candidates(s: Seq<Candidate>) -> Seq<Seq<u8>>
    decreases s.len(),
{
    if s.len() == 0 {
        Seq::empty()
    } else if counts_as_dir(s.last()) {
        dir_candidates(s.drop_last()).push(s.last().path@)
    } else {
        dir_candidates(s.drop_last())
    }
}

proof fn lemma_dir_candidates_grow(s: Seq<Candidate>, i: int)
    requires
        0 <= i <= s.len(),
    ensures
        dir_candidates(s.take(i)).len() <= dir_candidates(s).len(),
    decreases s.len() - i,
{
    if i < s.len() {
        lemma_dir_candidates_grow(s, i + 1);
        assert(s.take(i + 1).drop_last() =~= s.take(i));
    } else {
        assert(s.take(i) =~= s);
    }
}

/// Steps into the single entry of `entries` that counts as a directory.
/// With none the result is `NoMatch`, with several `Ambiguous`, and the path
/// is left as it was.
pub fn glob_downward(fromdir: &mut DirPath, entries: &Vec<Candidate>) -> (r: Result<(), UpError>)
    ensures
        dir_candidates(entries@).len() == 0 ==> r == Err::<(), UpError>(UpError::NoMatch)
            && final(fromdir)@ == old(fromdir)@,
        dir_candidates(entries@).len() == 1 ==> r == Ok::<(), UpError>(()) && final(fromdir)@ == pushed(
            old(fromdir)@,
            dir_candidates(entries@)[0],
        ),
        dir_candidates(entries@).len() >= 2 ==> r == Err::<(), UpError>(UpError::Ambiguous)
            && final(fromdir)@ == old(fromdir)@,
{
    let mut first: usize = 0;
    let mut count: usize = 0;
    let mut i: usize = 0;
    assert(entries@.take(0) =~= Seq::<Candidate>::empty());
    while i < entries.len() && count < 2
        invariant
            0 <= i <= entries@.len(),
            count <= 2,
            count == dir_candidates(entries@.take(i as int)).len(),
            count >= 1 ==> first < i && dir_candidates(entries@.take(i as int))[0]
                == entries@[first as int].path@,
        decreases entries@.len() - i,
    {
        let e = &entries[i];
        assert(entries@.take(i + 1).drop_last() =~= entries@.take(i as int));
        let counts = match e.is_dir {
            Some(d) => d,
            None => true,
        };
        if counts {
            if count == 0 {
                first = i;
            }
            count = count + 1;
        }
        i = i + 1;
    }
    if count == 0 {
        assert(entries@.take(i as int) =~= entries@);
        Err(UpError::NoMatch)
    } else if count == 1 {
        assert(entries@.take(i as int) =~= entries@);
        fromdir.push_path(entries[first].path.as_slice());
        Ok(())
    } else {
        proof {
            lemma_dir_candidates_grow(entries@, i as int);
        }
        Err(UpError::Ambiguous)
    }
}

} // verus!

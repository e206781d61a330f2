//! The pre-flight check that decides whether a whole batch of requests may
//! proceed.
//!
//! The batch is walked in order. A target that already names an entry
//! rejects the batch. Otherwise, without recursive mode, a target whose
//! parent names no entry and spans more than one component rejects the
//! batch: creating it would need ancestors that plain creation will not lay
//! down. The first rejection wins; an empty batch is accepted. The check is
//! best effort by design: a single-component missing parent is let through
//! and left to fail at creation time.

use vstd::prelude::*;

use crate::dir_path::{parent_of, views_of, DirPath};
use crate::model::{exists_in, FsModel};

verus! {

/// The validator's verdict on a batch.
#[derive(Clone, Copy, Debug, PartialEq, Eq)]
pub enum Validation {
    /// Every request passed; creation may begin.
    Accepted,
    /// Some request already names an entry.
    AlreadyExists,
    /// Some request needs ancestors that only recursive mode would create.
    NeedsRecursive,
}

/// The verdict on `reqs` against the namespace `fsv`, first rejection
/// winning.
pub open spec fn validate_spec(
    fsv: Seq<Seq<Seq<u8>>>,
    reqs: Seq<Seq<Seq<u8>>>,
    recursive: bool,
) -> Validation
    decreases reqs.len(),
{
    if reqs.len() == 0 {
        Validation::Accepted
    } else if exists_in(fsv, reqs[0]) {
        Validation::AlreadyExists
    } else if !recursive && !exists_in(fsv, parent_of(reqs[0])) && parent_of(reqs[0]).len() > 1 {
        Validation::NeedsRecursive
    } else {
        validate_spec(fsv, reqs.drop_first(), recursive)
    }
}

/// Walks the batch in order and returns the first rejection, or acceptance.
pub fn validate(fs: &FsModel, directories: &Vec<DirPath>, recursively: bool) -> (v: Validation)
    requires
        fs.wf(),
        forall|i: int| 0 <= i < directories@.len() ==> (#[trigger] directories@[i]).wf(),
    ensures
        v == validate_spec(fs@, views_of(directories@), recursively),
{
    let ghost reqs = views_of(directories@);
    proof {
        assert(reqs.skip(0) =~= reqs);
    }
    let mut i: usize = 0;
    while i < directories.len()
        invariant
            fs.wf(),
            forall|k: int| 0 <= k < directories@.len() ==> (#[trigger] directories@[k]).wf(),
            reqs == views_of(directories@),
            0 <= i <= directories@.len(),
            validate_spec(fs@, reqs.skip(i as int), recursively) == validate_spec(
                fs@,
                reqs,
                recursively,
            ),
        decreases directories@.len() - i,
    {
        proof {
            assert(reqs.skip(i as int)[0] == directories@[i as int]@);
        }
        let d = &directories[i];
        if fs.has_entry(d) {
            return Validation::AlreadyExists;
        }
        let par = d.parent();
        if !recursively && !fs.has_entry(&par) && par.is_multi_component() {
            return Validation::NeedsRecursive;
        }
        proof {
            assert(reqs.skip(i as int).drop_first() =~= reqs.skip(i as int + 1));
        }
        i += 1;
    }
    proof {
        assert(reqs.skip(directories@.len() as int).len() == 0);
    }
    Validation::Accepted
}

} // verus!

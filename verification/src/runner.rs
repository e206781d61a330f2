//! The creation pipeline: validate the whole batch, then create each
//! requested directory.
//!
//! Creation is modelled as a left-to-right fold over the batch. In
//! recursive mode a step lays down the target's whole ancestor chain and
//! cannot fail; in plain mode a step records exactly the target and fails
//! when the target exists or its parent is missing, stopping the fold.
//! A concurrent schedule changes only the interleaving of the real system
//! calls, not the modelled end state (see
//! [`crate::laws::lemma_schedule_irrelevant_recursive`] and
//! [`crate::laws::lemma_schedule_irrelevant_flat`]), so both execution
//! modes share this one contract.

use vstd::prelude::*;

use crate::dir_path::{parent_of, views_of, DirPath};
use crate::model::{chain_of, exists_in, CreateError, FsModel};
use crate::validate::{validate, validate_spec, Validation};

verus! {

/// How one invocation of the pipeline ended.
#[derive(Clone, Copy, Debug, PartialEq, Eq)]
pub enum RunOutcome {
    /// The batch was accepted and every creation succeeded.
    Completed,
    /// Rejected up front: some target already names an entry.
    AlreadyExists,
    /// Rejected up front: some target needs recursive mode.
    NeedsRecursive,
    /// The batch was accepted but a creation step failed; the steps before
    /// it keep their effect.
    CreateFailed(CreateError),
}

/// Whether the creation step for `p` succeeds on the namespace `fsv`.
pub open spec fn step_ok(fsv: Seq<Seq<Seq<u8>>>, p: Seq<Seq<u8>>, recursive: bool) -> bool {
    recursive || (!exists_in(fsv, p) && exists_in(fsv, parent_of(p)))
}

/// The namespace after a successful creation step for `p`.
pub open spec fn step_state(
    fsv: Seq<Seq<Seq<u8>>>,
    p: Seq<Seq<u8>>,
    recursive: bool,
) -> Seq<Seq<Seq<u8>>> {
    if recursive {
        fsv + chain_of(p)
    } else {
        fsv.push(p)
    }
}

/// The namespace after creating the batch in order, stopping at the first
/// failing step.
pub open spec fn run_state(
    fsv: Seq<Seq<Seq<u8>>>,
    reqs: Seq<Seq<Seq<u8>>>,
    recursive: bool,
) -> Seq<Seq<Seq<u8>>>
    decreases reqs.len(),
{
    if reqs.len() == 0 {
        fsv
    } else if !step_ok(fsv, reqs[0], recursive) {
        fsv
    } else {
        run_state(step_state(fsv, reqs[0], recursive), reqs.drop_first(), recursive)
    }
}

/// Whether every creation step in the batch succeeds.
pub open spec fn run_ok(fsv: Seq<Seq<Seq<u8>>>, reqs: Seq<Seq<Seq<u8>>>, recursive: bool) -> bool
    decreases reqs.len(),
{
    reqs.len() == 0 || (step_ok(fsv, reqs[0], recursive) && run_ok(
        step_state(fsv, reqs[0], recursive),
        reqs.drop_first(),
        recursive,
    ))
}

/// The error of the first failing creation step; meaningful only when
/// `run_ok` does not hold.
pub open spec fn run_err(
    fsv: Seq<Seq<Seq<u8>>>,
    reqs: Seq<Seq<Seq<u8>>>,
    recursive: bool,
) -> CreateError
    decreases reqs.len(),
{
    if reqs.len() == 0 {
        CreateError::AlreadyExists
    } else if !step_ok(fsv, reqs[0], recursive) {
        if exists_in(fsv, reqs[0]) {
            CreateError::AlreadyExists
        } else {
            CreateError::ParentMissing
        }
    } else {
        run_err(step_state(fsv, reqs[0], recursive), reqs.drop_first(), recursive)
    }
}

/// Validates the batch, then creates each directory in order on the
/// calling thread, stopping at the first failure. A rejected batch leaves
/// the namespace untouched.
pub fn sync_create(fs: &mut FsModel, directories: &Vec<DirPath>, recursively: bool) -> (r:
    RunOutcome)
    requires
        old(fs).wf(),
        forall|i: int| 0 <= i < directories@.len() ==> (#[trigger] directories@[i]).wf(),
    ensures
        final(fs).wf(),
        (r == RunOutcome::AlreadyExists) <==> validate_spec(
            old(fs)@,
            views_of(directories@),
            recursively,
        ) == Validation::AlreadyExists,
        (r == RunOutcome::NeedsRecursive) <==> validate_spec(
            old(fs)@,
            views_of(directories@),
            recursively,
        ) == Validation::NeedsRecursive,
        validate_spec(old(fs)@, views_of(directories@), recursively) != Validation::Accepted
            ==> final(fs)@ == old(fs)@,
        validate_spec(old(fs)@, views_of(directories@), recursively) == Validation::Accepted
            ==> final(fs)@ == run_state(old(fs)@, views_of(directories@), recursively),
        (r == RunOutcome::Completed) <==> (validate_spec(
            old(fs)@,
            views_of(directories@),
            recursively,
        ) == Validation::Accepted && run_ok(old(fs)@, views_of(directories@), recursively)),
        r matches RunOutcome::CreateFailed(e) ==> (validate_spec(
            old(fs)@,
            views_of(directories@),
            recursively,
        ) == Validation::Accepted && !run_ok(old(fs)@, views_of(directories@), recursively)
            && e == run_err(old(fs)@, views_of(directories@), recursively)),
        (validate_spec(old(fs)@, views_of(directories@), recursively) == Validation::Accepted
            && !run_ok(old(fs)@, views_of(directories@), recursively)) ==> r
            == RunOutcome::CreateFailed(run_err(old(fs)@, views_of(directories@), recursively)),
{
    let ghost reqs = views_of(directories@);
    let ghost fsv0 = fs@;
    let v = validate(fs, directories, recursively);
    match v {
        Validation::AlreadyExists => {
            return RunOutcome::AlreadyExists;
        },
        Validation::NeedsRecursive => {
            return RunOutcome::NeedsRecursive;
        },
        Validation::Accepted => {},
    }
    proof {
        assert(reqs.skip(0) =~= reqs);
    }
    let mut i: usize = 0;
    while i < directories.len()
        invariant
            fs.wf(),
            forall|k: int| 0 <= k < directories@.len() ==> (#[trigger] directories@[k]).wf(),
            reqs == views_of(directories@),
            fsv0 == old(fs)@,
            validate_spec(fsv0, reqs, recursively) == Validation::Accepted,
            0 <= i <= directories@.len(),
            run_state(fsv0, reqs, recursively) == run_state(fs@, reqs.skip(i as int), recursively),
            run_ok(fsv0, reqs, recursively) == run_ok(fs@, reqs.skip(i as int), recursively),
            run_err(fsv0, reqs, recursively) == run_err(fs@, reqs.skip(i as int), recursively),
        decreases directories@.len() - i,
    {
        proof {
            assert(reqs.skip(i as int)[0] == directories@[i as int]@);
            assert(reqs.skip(i as int).drop_first() =~= reqs.skip(i as int + 1));
        }
        let d = &directories[i];
        let ghost pre = fs@;
        if recursively {
            fs.create_dir_all(d);
        } else {
            match fs.create_dir(d) {
                Ok(()) => {},
                Err(e) => {
                    proof {
                        assert(!step_ok(pre, reqs.skip(i as int)[0], recursively));
                        assert(run_state(fs@, reqs.skip(i as int), recursively) == fs@);
                        assert(!run_ok(fsv0, reqs, recursively));
                        assert(run_err(fsv0, reqs, recursively) == e);
                    }
                    return RunOutcome::CreateFailed(e);
                },
            }
        }
        proof {
            assert(step_ok(pre, reqs.skip(i as int)[0], recursively));
            assert(fs@ == step_state(pre, reqs.skip(i as int)[0], recursively));
        }
        i += 1;
    }
    proof {
        assert(reqs.skip(directories@.len() as int).len() == 0);
    }
    RunOutcome::Completed
}

/// The whole pipeline: validation, then creation of every requested
/// directory. `mthread` selects the concurrent schedule in the embedding
/// program; it does not change the modelled end state, so both modes meet
/// the one contract of [`sync_create`].
#[allow(unused_variables)]
pub fn run(fs: &mut FsModel, directories: &Vec<DirPath>, recursively: bool, mthread: bool) -> (r:
    RunOutcome)
    requires
        old(fs).wf(),
        forall|i: int| 0 <= i < directories@.len() ==> (#[trigger] directories@[i]).wf(),
    ensures
        final(fs).wf(),
        (r == RunOutcome::AlreadyExists) <==> validate_spec(
            old(fs)@,
            views_of(directories@),
            recursively,
        ) == Validation::AlreadyExists,
        (r == RunOutcome::NeedsRecursive) <==> validate_spec(
            old(fs)@,
            views_of(directories@),
            recursively,
        ) == Validation::NeedsRecursive,
        validate_spec(old(fs)@, views_of(directories@), recursively) != Validation::Accepted
            ==> final(fs)@ == old(fs)@,
        validate_spec(old(fs)@, views_of(directories@), recursively) == Validation::Accepted
            ==> final(fs)@ == run_state(old(fs)@, views_of(directories@), recursively),
        (r == RunOutcome::Completed) <==> (validate_spec(
            old(fs)@,
            views_of(directories@),
            recursively,
        ) == Validation::Accepted && run_ok(old(fs)@, views_of(directories@), recursively)),
        r matches RunOutcome::CreateFailed(e) ==> (validate_spec(
            old(fs)@,
            views_of(directories@),
            recursively,
        ) == Validation::Accepted && !run_ok(old(fs)@, views_of(directories@), recursively)
            && e == run_err(old(fs)@, views_of(directories@), recursively)),
        (validate_spec(old(fs)@, views_of(directories@), recursively) == Validation::Accepted
            && !run_ok(old(fs)@, views_of(directories@), recursively)) ==> r
            == RunOutcome::CreateFailed(run_err(old(fs)@, views_of(directories@), recursively)),
{
    sync_create(fs, directories, recursively)
}

} // verus!

//! An explicit model of the visible filesystem namespace.
//!
//! [`FsModel`] records which paths name existing filesystem entries. The
//! working directory (the empty path) and the root always exist. Creation
//! is modelled after the host API: plain creation demands an existing
//! parent and a fresh target, recursive creation also lays down every
//! missing ancestor and is idempotent.

use vstd::prelude::*;

use crate::dir_path::{parent_of, path_eq, views_of, DirPath};

verus! {

/// The view that stands for the filesystem root alone.
pub open spec fn is_root(p: Seq<Seq<u8>>) -> bool {
    p.len() == 1 && p[0].len() == 0
}

/// Whether `p` names an existing entry: the working directory and the root
/// always exist, everything else must be recorded.
pub open spec fn exists_in(fsv: Seq<Seq<Seq<u8>>>, p: Seq<Seq<u8>>) -> bool {
    p.len() == 0 || is_root(p) || fsv.contains(p)
}

/// The non-empty prefixes of `p`, shortest first, skipping the bare root:
/// the ancestor chain that recursive creation lays down.
pub open spec fn chain_start(p: Seq<Seq<u8>>) -> int {
    if p.len() > 0 && p[0].len() == 0 {
        2
    } else {
        1
    }
}

/// The chain of prefixes of `p` from `chain_start` components up to all of
/// them, shortest first.
pub open spec fn chain_of(p: Seq<Seq<u8>>) -> Seq<Seq<Seq<u8>>> {
    if p.len() >= chain_start(p) {
        Seq::new((p.len() - chain_start(p) + 1) as nat, |i: int| p.take(chain_start(p) + i))
    } else {
        Seq::empty()
    }
}

/// Why a plain creation was refused.
#[derive(Clone, Copy, Debug, PartialEq, Eq)]
pub enum CreateError {
    /// The target already names an entry.
    AlreadyExists,
    /// The target's parent names no entry.
    ParentMissing,
}

/// The recorded filesystem entries.
pub struct FsModel {
    pub dirs: Vec<DirPath>,
}

impl View for FsModel {
    type V = Seq<Seq<Seq<u8>>>;

    open spec fn view(&self) -> Seq<Seq<Seq<u8>>> {
        views_of(self.dirs@)
    }
}

impl FsModel {
    /// Every recorded path is well formed.
    pub open spec fn wf(&self) -> bool {
        forall|i: int| 0 <= i < self.dirs@.len() ==> (#[trigger] self.dirs@[i]).wf()
    }

    /// An empty namespace: only the working directory and the root exist.
    pub fn new() -> (r: FsModel)
        ensures
            r.wf(),
            r@ == Seq::<Seq<Seq<u8>>>::empty(),
    {
        let r = FsModel { dirs: Vec::new() };
        proof {
            assert(r@ =~= Seq::<Seq<Seq<u8>>>::empty());
        }
        r
    }

    /// Records that `p` names an existing entry, whatever its kind.
    pub fn note_existing(&mut self, p: &DirPath)
        requires
            old(self).wf(),
            p.wf(),
        ensures
            final(self).wf(),
            final(self)@ == old(self)@.push(p@),
    {
        self.dirs.push(p.duplicate());
        proof {
            assert(self@ =~= old(self)@.push(p@));
        }
    }

    /// Whether `p` names an existing entry.
    pub fn has_entry(&self, p: &DirPath) -> (r: bool)
        requires
            self.wf(),
            p.wf(),
        ensures
            r == exists_in(self@, p@),
    {
        if p.parts.len() == 0 {
            return true;
        }
        proof {
            assert(p@.len() > 0);
            assert(p@[p.offset()] == p.parts@[0]@);
            assert(!is_root(p@));
        }
        let mut i: usize = 0;
        while i < self.dirs.len()
            invariant
                self.wf(),
                p.wf(),
                0 <= i <= self.dirs@.len(),
                forall|j: int| 0 <= j < i ==> (#[trigger] self.dirs@[j])@ != p@,
            decreases self.dirs@.len() - i,
        {
            if path_eq(&self.dirs[i], p) {
                proof {
                    assert(self@[i as int] == self.dirs@[i as int]@);
                    assert(self@.contains(p@));
                }
                return true;
            }
            i += 1;
        }
        proof {
            assert(!self@.contains(p@)) by {
                if self@.contains(p@) {
                    let j = choose|j: int| 0 <= j < self@.len() && self@[j] == p@;
                    assert(self@[j] == self.dirs@[j]@);
                }
            }
        }
        false
    }

    /// Creates exactly the directory `p`: refused when `p` already names an
    /// entry or its parent names none.
    pub fn create_dir(&mut self, p: &DirPath) -> (r: Result<(), CreateError>)
        requires
            old(self).wf(),
            p.wf(),
        ensures
            final(self).wf(),
            (r is Ok) <==> (!exists_in(old(self)@, p@) && exists_in(
                old(self)@,
                parent_of(p@),
            )),
            r is Ok ==> final(self)@ == old(self)@.push(p@),
            r is Err ==> final(self)@ == old(self)@,
            (r == Result::<(), CreateError>::Err(CreateError::AlreadyExists)) <==> exists_in(
                old(self)@,
                p@,
            ),
            (r == Result::<(), CreateError>::Err(CreateError::ParentMissing)) <==> (!exists_in(
                old(self)@,
                p@,
            ) && !exists_in(old(self)@, parent_of(p@))),
    {
        if self.has_entry(p) {
            return Err(CreateError::AlreadyExists);
        }
        let par = p.parent();
        if !self.has_entry(&par) {
            return Err(CreateError::ParentMissing);
        }
        self.note_existing(p);
        Ok(())
    }

    /// Creates the directory `p` together with every missing ancestor. The
    /// model records the whole prefix chain; recording a path that already
    /// exists does not change which entries exist.
    pub fn create_dir_all(&mut self, p: &DirPath)
        requires
            old(self).wf(),
            p.wf(),
        ensures
            final(self).wf(),
            final(self)@ == old(self)@ + chain_of(p@),
    {
        let mut pref = DirPath { absolute: p.absolute, parts: Vec::new() };
        let mut j: usize = 0;
        proof {
            assert(chain_of(p@).len() == p.parts@.len());
        }
        while j < p.parts.len()
            invariant
                old(self).wf(),
                p.wf(),
                self.wf(),
                pref.wf(),
                pref.absolute == p.absolute,
                0 <= j <= p.parts@.len(),
                pref.parts@.len() == j,
                forall|k: int| 0 <= k < j ==> #[trigger] pref.parts@[k]@ == p.parts@[k]@,
                chain_of(p@).len() == p.parts@.len(),
                self@ == old(self)@ + chain_of(p@).take(j as int),
            decreases p.parts@.len() - j,
        {
            pref.parts.push(crate::dir_path::clone_bytes(&p.parts[j]));
            proof {
                assert(pref@ =~= p@.take(chain_start(p@) + j));
                assert(chain_of(p@)[j as int] == p@.take(chain_start(p@) + j));
            }
            let ghost pre = self@;
            self.note_existing(&pref);
            proof {
                assert(self@ =~= old(self)@ + chain_of(p@).take(j as int + 1)) by {
                    assert(self@ == pre.push(pref@));
                    assert(chain_of(p@).take(j as int + 1) =~= chain_of(p@).take(j as int).push(
                        chain_of(p@)[j as int],
                    ));
                }
            }
            j += 1;
        }
        proof {
            assert(chain_of(p@).take(p.parts@.len() as int) =~= chain_of(p@));
        }
    }
}

} // verus!

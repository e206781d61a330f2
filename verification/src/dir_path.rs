//! Directory paths as sequences of byte-string components.
//!
//! A path view is a `Seq<Seq<u8>>`: one entry per component, in order. An
//! absolute path carries the root as a leading empty component
//! ([`root_marker`]); ordinary components are non-empty and free of the
//! separator byte, so the marker is unambiguous.

use vstd::prelude::*;

verus! {

/// A well-formed path component: non-empty, and without the separator byte.
pub open spec fn part_wf(p: Seq<u8>) -> bool {
    p.len() > 0 && !p.contains(47u8)
}

/// The component that stands for the filesystem root in a path view.
pub open spec fn root_marker() -> Seq<u8> {
    Seq::<u8>::empty()
}

/// The view of a path with its final component removed; the empty path is
/// its own parent.
pub open spec fn parent_of(p: Seq<Seq<u8>>) -> Seq<Seq<u8>> {
    if p.len() > 0 {
        p.drop_last()
    } else {
        p
    }
}

/// A directory path: an optionally absolute, ordered list of components.
pub struct DirPath {
    pub absolute: bool,
    pub parts: Vec<Vec<u8>>,
}

impl View for DirPath {
    type V = Seq<Seq<u8>>;

    open spec fn view(&self) -> Seq<Seq<u8>> {
        if self.absolute {
            seq![root_marker()] + self.parts@.map(|i: int, p: Vec<u8>| p@)
        } else {
            self.parts@.map(|i: int, p: Vec<u8>| p@)
        }
    }
}

/// The views of a list of paths, in order.
pub open spec fn views_of(ds: Seq<DirPath>) -> Seq<Seq<Seq<u8>>> {
    ds.map(|i: int, d: DirPath| d@)
}

impl DirPath {
    /// Every component is well formed.
    pub open spec fn wf(&self) -> bool {
        forall|i: int| 0 <= i < self.parts@.len() ==> part_wf(#[trigger] self.parts@[i]@)
    }

    /// How far into the view the ordinary components start.
    pub open spec fn offset(&self) -> int {
        if self.absolute {
            1
        } else {
            0
        }
    }

    /// Builds a path from plain values, refusing any malformed component.
    pub fn from_parts(absolute: bool, parts: Vec<Vec<u8>>) -> (r: Option<DirPath>)
        ensures
            (r is Some) <==> (forall|i: int|
                0 <= i < parts@.len() ==> part_wf(#[trigger] parts@[i]@)),
            r matches Some(p) ==> p.wf() && p.absolute == absolute && p.parts == parts,
    {
        let mut i: usize = 0;
        while i < parts.len()
            invariant
                0 <= i <= parts@.len(),
                forall|j: int| 0 <= j < i ==> part_wf(#[trigger] parts@[j]@),
            decreases parts@.len() - i,
        {
            if !part_ok(&parts[i]) {
                return None;
            }
            i += 1;
        }
        Some(DirPath { absolute, parts })
    }

    /// A structural copy of this path.
    pub fn duplicate(&self) -> (r: DirPath)
        ensures
            r@ == self@,
            r.absolute == self.absolute,
            r.parts@.len() == self.parts@.len(),
            forall|i: int|
                0 <= i < self.parts@.len() ==> #[trigger] r.parts@[i]@ == self.parts@[i]@,
            self.wf() ==> r.wf(),
    {
        let mut ps: Vec<Vec<u8>> = Vec::new();
        let mut i: usize = 0;
        while i < self.parts.len()
            invariant
                0 <= i <= self.parts@.len(),
                ps@.len() == i,
                forall|j: int| 0 <= j < i ==> #[trigger] ps@[j]@ == self.parts@[j]@,
            decreases self.parts@.len() - i,
        {
            ps.push(clone_bytes(&self.parts[i]));
            i += 1;
        }
        let r = DirPath { absolute: self.absolute, parts: ps };
        proof {
            assert(r.parts@.map(|i: int, p: Vec<u8>| p@) =~= self.parts@.map(
                |i: int, p: Vec<u8>| p@,
            ));
            assert(r@ =~= self@);
        }
        r
    }

    /// The path with its final component removed.
    pub fn parent(&self) -> (r: DirPath)
        ensures
            r@ == parent_of(self@),
            self.wf() ==> r.wf(),
    {
        if self.parts.len() == 0 {
            let r = DirPath { absolute: false, parts: Vec::new() };
            proof {
                assert(r@ =~= parent_of(self@));
            }
            r
        } else {
            let mut ps: Vec<Vec<u8>> = Vec::new();
            let mut i: usize = 0;
            let n: usize = self.parts.len() - 1;
            while i < n
                invariant
                    n == self.parts@.len() - 1,
                    0 <= i <= n,
                    ps@.len() == i,
                    forall|j: int| 0 <= j < i ==> #[trigger] ps@[j]@ == self.parts@[j]@,
                decreases n - i,
            {
                ps.push(clone_bytes(&self.parts[i]));
                i += 1;
            }
            let r = DirPath { absolute: self.absolute, parts: ps };
            proof {
                assert(r@ =~= parent_of(self@));
            }
            r
        }
    }

    /// Whether the view has more than one component.
    pub fn is_multi_component(&self) -> (r: bool)
        ensures
            r == (self@.len() > 1),
    {
        self.parts.len() > 1 || (self.absolute && self.parts.len() == 1)
    }
}

/// Checks one component for well-formedness.
pub fn part_ok(p: &Vec<u8>) -> (r: bool)
    ensures
        r == part_wf(p@),
{
    if p.len() == 0 {
        return false;
    }
    let mut i: usize = 0;
    while i < p.len()
        invariant
            0 <= i <= p@.len(),
            forall|j: int| 0 <= j < i ==> p@[j] != 47u8,
        decreases p@.len() - i,
    {
        if p[i] == 47u8 {
            proof {
                assert(p@.contains(47u8)) by {
                    assert(p@[i as int] == 47u8);
                }
            }
            return false;
        }
        i += 1;
    }
    proof {
        assert(!p@.contains(47u8));
    }
    true
}

/// Copies a byte vector.
pub fn clone_bytes(v: &Vec<u8>) -> (r: Vec<u8>)
    ensures
        r@ == v@,
{
    let mut r: Vec<u8> = Vec::new();
    let mut i: usize = 0;
    while i < v.len()
        invariant
            0 <= i <= v@.len(),
            r@ == v@.take(i as int),
        decreases v@.len() - i,
    {
        r.push(v[i]);
        proof {
            assert(r@ =~= v@.take(i as int + 1));
        }
        i += 1;
    }
    proof {
        assert(v@.take(v@.len() as int) =~= v@);
    }
    r
}

/// Compares two byte vectors for equality of contents.
pub fn bytes_eq(a: &Vec<u8>, b: &Vec<u8>) -> (r: bool)
    ensures
        r == (a@ == b@),
{
    if a.len() != b.len() {
        return false;
    }
    let mut i: usize = 0;
    while i < a.len()
        invariant
            a@.len() == b@.len(),
            0 <= i <= a@.len(),
            forall|j: int| 0 <= j < i ==> a@[j] == b@[j],
        decreases a@.len() - i,
    {
        if a[i] != b[i] {
            return false;
        }
        i += 1;
    }
    proof {
        assert(a@ =~= b@);
    }
    true
}

/// Compares two paths for equality of their views.
pub fn path_eq(a: &DirPath, b: &DirPath) -> (r: bool)
    requires
        a.wf(),
        b.wf(),
    ensures
        r == (a@ == b@),
{
    if a.absolute != b.absolute {
        proof {
            lemma_absolute_distinguishes(a, b);
        }
        return false;
    }
    if a.parts.len() != b.parts.len() {
        proof {
            assert(a@.len() != b@.len());
        }
        return false;
    }
    let mut i: usize = 0;
    while i < a.parts.len()
        invariant
            a.wf(),
            b.wf(),
            a.absolute == b.absolute,
            a.parts@.len() == b.parts@.len(),
            0 <= i <= a.parts@.len(),
            forall|j: int| 0 <= j < i ==> #[trigger] a.parts@[j]@ == b.parts@[j]@,
        decreases a.parts@.len() - i,
    {
        if !bytes_eq(&a.parts[i], &b.parts[i]) {
            proof {
                assert(a@[i + a.offset()] == a.parts@[i as int]@);
                assert(b@[i + b.offset()] == b.parts@[i as int]@);
            }
            return false;
        }
        i += 1;
    }
    proof {
        assert(a@ =~= b@);
    }
    true
}

/// Paths that disagree on absoluteness have different views, provided both
/// are well formed: an absolute view starts with the empty root marker,
/// which no ordinary component can equal.
proof fn lemma_absolute_distinguishes(a: &DirPath, b: &DirPath)
    requires
        a.wf(),
        b.wf(),
        a.absolute != b.absolute,
    ensures
        a@ != b@,
{
    if a@ == b@ {
        if a.absolute {
            assert(a@.len() == 1 + a.parts@.len());
            assert(b@.len() == b.parts@.len());
            assert(b.parts@.len() >= 1);
            assert(part_wf(b.parts@[0]@));
            assert(a@[0] == root_marker());
            assert(b@[0] == b.parts@[0]@);
            assert(a@[0] == b@[0]);
            assert(false);
        } else {
            assert(b@.len() == 1 + b.parts@.len());
            assert(a@.len() == a.parts@.len());
            assert(a.parts@.len() >= 1);
            assert(part_wf(a.parts@[0]@));
            assert(b@[0] == root_marker());
            assert(a@[0] == a.parts@[0]@);
            assert(false);
        }
    }
}

} // verus!

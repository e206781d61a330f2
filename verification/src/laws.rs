//! Batch-level guarantees of the creation pipeline, stated over the model
//! and proved once for every namespace and every batch.

use vstd::prelude::*;

use crate::dir_path::parent_of;
use crate::model::{chain_of, chain_start, exists_in, is_root};
use crate::runner::{run_ok, run_state, step_ok, step_state};
use crate::validate::{validate_spec, Validation};

verus! {

/// `q` is a non-empty prefix of some requested path.
pub open spec fn in_some_chain(q: Seq<Seq<u8>>, reqs: Seq<Seq<Seq<u8>>>) -> bool {
    exists|j: int, k: int|
        0 <= j < reqs.len() && 1 <= k <= reqs[j].len() && q == #[trigger] reqs[j].take(k)
}

/// `v` occurs in `order`.
pub open spec fn hits(order: Seq<int>, v: int) -> bool {
    exists|i: int| 0 <= i < order.len() && (#[trigger] order[i]) == v
}

/// `order` lists each position of a batch of length `n` exactly once.
pub open spec fn is_reorder_of(order: Seq<int>, n: int) -> bool {
    &&& order.len() == n
    &&& (forall|i: int| 0 <= i < n ==> 0 <= #[trigger] order[i] < n)
    &&& (forall|i1: int, i2: int| 0 <= i1 < i2 < n ==> order[i1] != order[i2])
    &&& (forall|v: int| 0 <= v < n ==> #[trigger] hits(order, v))
}

/// The batch `reqs` rearranged into the order `order`.
pub open spec fn reorder(reqs: Seq<Seq<Seq<u8>>>, order: Seq<int>) -> Seq<Seq<Seq<u8>>> {
    Seq::new(order.len(), |i: int| reqs[order[i]])
}

/// Membership in a concatenation is membership in either half.
proof fn lemma_contains_concat<T>(a: Seq<T>, b: Seq<T>, x: T)
    ensures
        (a + b).contains(x) <==> a.contains(x) || b.contains(x),
{
    if (a + b).contains(x) {
        let i = choose|i: int| 0 <= i < (a + b).len() && (a + b)[i] == x;
        if i < a.len() {
            assert(a[i] == x);
        } else {
            assert(b[i - a.len()] == x);
        }
    }
    if a.contains(x) {
        let i = choose|i: int| 0 <= i < a.len() && a[i] == x;
        assert((a + b)[i] == x);
    }
    if b.contains(x) {
        let i = choose|i: int| 0 <= i < b.len() && b[i] == x;
        assert((a + b)[a.len() + i] == x);
    }
}

/// Membership after a push is membership before, or the pushed element.
proof fn lemma_contains_push<T>(s: Seq<T>, x: T, y: T)
    ensures
        s.push(x).contains(y) <==> s.contains(y) || y == x,
{
    if s.push(x).contains(y) {
        let i = choose|i: int| 0 <= i < s.push(x).len() && s.push(x)[i] == y;
        if i < s.len() {
            assert(s[i] == y);
        }
    }
    if s.contains(y) {
        let i = choose|i: int| 0 <= i < s.len() && s[i] == y;
        assert(s.push(x)[i] == y);
    }
    if y == x {
        assert(s.push(x)[s.len() as int] == y);
    }
}

/// Membership in a non-empty sequence is its head, or membership in its tail.
proof fn lemma_contains_first<T>(s: Seq<T>, y: T)
    requires
        s.len() > 0,
    ensures
        s.contains(y) <==> (y == s[0] || s.drop_first().contains(y)),
{
    if s.contains(y) {
        let i = choose|i: int| 0 <= i < s.len() && s[i] == y;
        if i > 0 {
            assert(s.drop_first()[i - 1] == y);
        }
    }
    if s.drop_first().contains(y) {
        let i = choose|i: int| 0 <= i < s.drop_first().len() && s.drop_first()[i] == y;
        assert(s[i + 1] == y);
    }
    if y == s[0] {
        assert(s.contains(y));
    }
}

/// An entry exists after appending `b` exactly when it existed before or is
/// listed in `b`.
proof fn lemma_exists_in_concat(a: Seq<Seq<Seq<u8>>>, b: Seq<Seq<Seq<u8>>>, q: Seq<Seq<u8>>)
    ensures
        exists_in(a + b, q) <==> exists_in(a, q) || b.contains(q),
{
    lemma_contains_concat(a, b, q);
}

/// The chain of `p` holds exactly the prefixes of `p` from `chain_start(p)`
/// components up.
proof fn lemma_chain_membership(p: Seq<Seq<u8>>, q: Seq<Seq<u8>>)
    ensures
        chain_of(p).contains(q) <==> (exists|k: int|
            chain_start(p) <= k <= p.len() && q == #[trigger] p.take(k)),
{
    if chain_of(p).contains(q) {
        let i = choose|i: int| 0 <= i < chain_of(p).len() && chain_of(p)[i] == q;
        assert(q == p.take(chain_start(p) + i));
    }
    if exists|k: int| chain_start(p) <= k <= p.len() && q == #[trigger] p.take(k) {
        let k = choose|k: int| chain_start(p) <= k <= p.len() && q == #[trigger] p.take(k);
        assert(chain_of(p)[k - chain_start(p)] == q);
        assert(chain_of(p).contains(q));
    }
}

/// Recursive creation never fails, and afterwards an entry exists exactly
/// when it existed before or is a non-empty prefix of some requested path:
/// the full ancestor chain of every target is laid down, and nothing else.
pub proof fn lemma_recursive_run(fsv: Seq<Seq<Seq<u8>>>, reqs: Seq<Seq<Seq<u8>>>)
    ensures
        run_ok(fsv, reqs, true),
        forall|q: Seq<Seq<u8>>|
            exists_in(run_state(fsv, reqs, true), q) <==> exists_in(fsv, q) || in_some_chain(
                q,
                reqs,
            ),
    decreases reqs.len(),
{
    if reqs.len() == 0 {
        assert(run_state(fsv, reqs, true) == fsv);
        assert(forall|q: Seq<Seq<u8>>| !in_some_chain(q, reqs));
    } else {
        let p = reqs[0];
        let fsv1 = fsv + chain_of(p);
        let rest = reqs.drop_first();
        lemma_recursive_run(fsv1, rest);
        assert(step_ok(fsv, p, true));
        assert(step_state(fsv, p, true) == fsv1);
        assert(run_state(fsv, reqs, true) == run_state(fsv1, rest, true));
        assert forall|q: Seq<Seq<u8>>|
            exists_in(run_state(fsv, reqs, true), q) <==> (exists_in(fsv, q) || in_some_chain(
                q,
                reqs,
            )) by {
            lemma_exists_in_concat(fsv, chain_of(p), q);
            lemma_chain_membership(p, q);
            if exists_in(run_state(fsv, reqs, true), q) {
                if !exists_in(fsv, q) {
                    if chain_of(p).contains(q) {
                        let k = choose|k: int|
                            chain_start(p) <= k <= p.len() && q == #[trigger] p.take(k);
                        assert(q == reqs[0].take(k));
                        assert(in_some_chain(q, reqs));
                    } else if in_some_chain(q, rest) {
                        let (j, k) = choose|j: int, k: int|
                            0 <= j < rest.len() && 1 <= k <= rest[j].len() && q
                                == #[trigger] rest[j].take(k);
                        assert(rest[j] == reqs[j + 1]);
                        assert(q == reqs[j + 1].take(k));
                        assert(in_some_chain(q, reqs));
                    }
                }
            }
            if exists_in(fsv, q) || in_some_chain(q, reqs) {
                if !exists_in(fsv, q) {
                    let (j, k) = choose|j: int, k: int|
                        0 <= j < reqs.len() && 1 <= k <= reqs[j].len() && q
                            == #[trigger] reqs[j].take(k);
                    if j == 0 {
                        if k >= chain_start(p) {
                            assert(chain_of(p).contains(q));
                        } else {
                            assert(chain_start(p) == 2 && k == 1);
                            assert(q == p.take(1));
                            assert(q[0] == p[0]);
                            assert(is_root(q));
                        }
                    } else {
                        assert(rest[j - 1] == reqs[j]);
                        assert(q == rest[j - 1].take(k));
                        assert(in_some_chain(q, rest));
                    }
                }
            }
        }
    }
}

/// Plain creation of a batch of distinct, absent targets whose parents all
/// exist never fails, and afterwards an entry exists exactly when it
/// existed before or is one of the targets: nothing else is created.
pub proof fn lemma_flat_run(fsv: Seq<Seq<Seq<u8>>>, reqs: Seq<Seq<Seq<u8>>>)
    requires
        forall|j: int| 0 <= j < reqs.len() ==> !exists_in(fsv, #[trigger] reqs[j]),
        forall|j: int| 0 <= j < reqs.len() ==> exists_in(fsv, parent_of(#[trigger] reqs[j])),
        forall|j1: int, j2: int| 0 <= j1 < j2 < reqs.len() ==> reqs[j1] != reqs[j2],
    ensures
        run_ok(fsv, reqs, false),
        forall|q: Seq<Seq<u8>>|
            exists_in(run_state(fsv, reqs, false), q) <==> exists_in(fsv, q) || reqs.contains(q),
    decreases reqs.len(),
{
    if reqs.len() == 0 {
        assert(forall|q: Seq<Seq<u8>>| !reqs.contains(q));
    } else {
        let p = reqs[0];
        let fsv1 = fsv.push(p);
        let rest = reqs.drop_first();
        assert(!exists_in(fsv, p));
        assert(exists_in(fsv, parent_of(p)));
        assert(step_ok(fsv, p, false));
        assert(step_state(fsv, p, false) == fsv1);
        assert forall|j: int| 0 <= j < rest.len() implies !exists_in(fsv1, #[trigger] rest[j]) by {
            assert(rest[j] == reqs[j + 1]);
            assert(!exists_in(fsv, reqs[j + 1]));
            assert(reqs[0] != reqs[j + 1]);
            lemma_contains_push(fsv, p, rest[j]);
        }
        assert forall|j: int| 0 <= j < rest.len() implies exists_in(
            fsv1,
            parent_of(#[trigger] rest[j]),
        ) by {
            assert(rest[j] == reqs[j + 1]);
            assert(exists_in(fsv, parent_of(reqs[j + 1])));
            lemma_contains_push(fsv, p, parent_of(rest[j]));
        }
        assert forall|j1: int, j2: int| 0 <= j1 < j2 < rest.len() implies rest[j1] != rest[j2] by {
            assert(rest[j1] == reqs[j1 + 1]);
            assert(rest[j2] == reqs[j2 + 1]);
        }
        lemma_flat_run(fsv1, rest);
        assert(run_state(fsv, reqs, false) == run_state(fsv1, rest, false));
        assert forall|q: Seq<Seq<u8>>|
            exists_in(run_state(fsv, reqs, false), q) <==> (exists_in(fsv, q) || reqs.contains(
                q,
            )) by {
            lemma_contains_push(fsv, p, q);
            lemma_contains_first(reqs, q);
        }
    }
}

/// A batch with a target that already names an entry is never accepted.
pub proof fn lemma_existing_target_rejects(
    fsv: Seq<Seq<Seq<u8>>>,
    reqs: Seq<Seq<Seq<u8>>>,
    recursive: bool,
    j: int,
)
    requires
        0 <= j < reqs.len(),
        exists_in(fsv, reqs[j]),
    ensures
        validate_spec(fsv, reqs, recursive) != Validation::Accepted,
    decreases reqs.len(),
{
    if !exists_in(fsv, reqs[0]) && !(!recursive && !exists_in(fsv, parent_of(reqs[0]))
        && parent_of(reqs[0]).len() > 1) {
        assert(j != 0);
        assert(reqs.drop_first()[j - 1] == reqs[j]);
        lemma_existing_target_rejects(fsv, reqs.drop_first(), recursive, j - 1);
    }
}

/// Without recursive mode, a batch with an absent target whose parent is
/// absent and spans more than one component is never accepted.
pub proof fn lemma_missing_parent_rejects(fsv: Seq<Seq<Seq<u8>>>, reqs: Seq<Seq<Seq<u8>>>, j: int)
    requires
        0 <= j < reqs.len(),
        !exists_in(fsv, reqs[j]),
        !exists_in(fsv, parent_of(reqs[j])),
        parent_of(reqs[j]).len() > 1,
    ensures
        validate_spec(fsv, reqs, false) != Validation::Accepted,
    decreases reqs.len(),
{
    if !exists_in(fsv, reqs[0]) && !(!exists_in(fsv, parent_of(reqs[0])) && parent_of(
        reqs[0],
    ).len() > 1) {
        assert(j != 0);
        assert(reqs.drop_first()[j - 1] == reqs[j]);
        lemma_missing_parent_rejects(fsv, reqs.drop_first(), j - 1);
    }
}

/// In recursive mode, running the batch in any order leaves the same
/// entries in existence: a concurrent schedule and the sequential one agree
/// on the final namespace.
pub proof fn lemma_schedule_irrelevant_recursive(
    fsv: Seq<Seq<Seq<u8>>>,
    reqs: Seq<Seq<Seq<u8>>>,
    order: Seq<int>,
)
    requires
        is_reorder_of(order, reqs.len() as int),
    ensures
        run_ok(fsv, reorder(reqs, order), true),
        forall|q: Seq<Seq<u8>>|
            exists_in(run_state(fsv, reorder(reqs, order), true), q) <==> exists_in(
                run_state(fsv, reqs, true),
                q,
            ),
{
    let ro = reorder(reqs, order);
    lemma_recursive_run(fsv, reqs);
    lemma_recursive_run(fsv, ro);
    assert forall|q: Seq<Seq<u8>>| in_some_chain(q, ro) <==> in_some_chain(q, reqs) by {
        if in_some_chain(q, ro) {
            let (j, k) = choose|j: int, k: int|
                0 <= j < ro.len() && 1 <= k <= ro[j].len() && q == #[trigger] ro[j].take(k);
            assert(ro[j] == reqs[order[j]]);
            assert(q == reqs[order[j]].take(k));
            assert(in_some_chain(q, reqs));
        }
        if in_some_chain(q, reqs) {
            let (j, k) = choose|j: int, k: int|
                0 <= j < reqs.len() && 1 <= k <= reqs[j].len() && q == #[trigger] reqs[j].take(k);
            assert(hits(order, j));
            let i = choose|i: int| 0 <= i < order.len() && (#[trigger] order[i]) == j;
            assert(ro[i] == reqs[j]);
            assert(q == ro[i].take(k));
            assert(in_some_chain(q, ro));
        }
    }
    assert forall|q: Seq<Seq<u8>>|
        exists_in(run_state(fsv, ro, true), q) <==> exists_in(run_state(fsv, reqs, true), q) by {
        assert(exists_in(run_state(fsv, ro, true), q) <==> exists_in(fsv, q) || in_some_chain(
            q,
            ro,
        ));
        assert(exists_in(run_state(fsv, reqs, true), q) <==> exists_in(fsv, q) || in_some_chain(
            q,
            reqs,
        ));
        assert(in_some_chain(q, ro) <==> in_some_chain(q, reqs));
    }
}

/// Without recursive mode, for a batch of distinct, absent targets whose
/// parents all exist, running the batch in any order succeeds and leaves
/// the same entries in existence: a concurrent schedule and the sequential
/// one agree on the final namespace.
pub proof fn lemma_schedule_irrelevant_flat(
    fsv: Seq<Seq<Seq<u8>>>,
    reqs: Seq<Seq<Seq<u8>>>,
    order: Seq<int>,
)
    requires
        is_reorder_of(order, reqs.len() as int),
        forall|j: int| 0 <= j < reqs.len() ==> !exists_in(fsv, #[trigger] reqs[j]),
        forall|j: int| 0 <= j < reqs.len() ==> exists_in(fsv, parent_of(#[trigger] reqs[j])),
        forall|j1: int, j2: int| 0 <= j1 < j2 < reqs.len() ==> reqs[j1] != reqs[j2],
    ensures
        run_ok(fsv, reqs, false),
        run_ok(fsv, reorder(reqs, order), false),
        forall|q: Seq<Seq<u8>>|
            exists_in(run_state(fsv, reorder(reqs, order), false), q) <==> exists_in(
                run_state(fsv, reqs, false),
                q,
            ),
{
    let ro = reorder(reqs, order);
    lemma_flat_run(fsv, reqs);
    assert forall|j: int| 0 <= j < ro.len() implies !exists_in(fsv, #[trigger] ro[j]) by {
        assert(ro[j] == reqs[order[j]]);
    }
    assert forall|j: int| 0 <= j < ro.len() implies exists_in(fsv, parent_of(#[trigger] ro[j])) by {
        assert(ro[j] == reqs[order[j]]);
        assert(exists_in(fsv, parent_of(reqs[order[j]])));
    }
    assert forall|j1: int, j2: int| 0 <= j1 < j2 < ro.len() implies ro[j1] != ro[j2] by {
        let a = order[j1];
        let b = order[j2];
        assert(ro[j1] == reqs[a]);
        assert(ro[j2] == reqs[b]);
        assert(a != b);
        if a < b {
            assert(reqs[a] != reqs[b]);
        } else {
            assert(reqs[b] != reqs[a]);
        }
    }
    lemma_flat_run(fsv, ro);
    assert forall|q: Seq<Seq<u8>>| ro.contains(q) <==> reqs.contains(q) by {
        if ro.contains(q) {
            let j = choose|j: int| 0 <= j < ro.len() && ro[j] == q;
            assert(ro[j] == reqs[order[j]]);
            assert(reqs[order[j]] == q);
        }
        if reqs.contains(q) {
            let j = choose|j: int| 0 <= j < reqs.len() && reqs[j] == q;
            assert(hits(order, j));
            let i = choose|i: int| 0 <= i < order.len() && (#[trigger] order[i]) == j;
            assert(ro[i] == reqs[j]);
            assert(ro.contains(q));
        }
    }
    assert forall|q: Seq<Seq<u8>>|
        exists_in(run_state(fsv, ro, false), q) <==> exists_in(run_state(fsv, reqs, false), q) by {
        assert(exists_in(run_state(fsv, ro, false), q) <==> exists_in(fsv, q) || ro.contains(q));
        assert(exists_in(run_state(fsv, reqs, false), q) <==> exists_in(fsv, q) || reqs.contains(
            q,
        ));
        assert(ro.contains(q) <==> reqs.contains(q));
    }
}

} // verus!

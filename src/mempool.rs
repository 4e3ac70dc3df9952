//! The in-memory mempool: operations keyed by hash, with indexes by sender,
//! by factory and paymaster, and the code hashes recorded per operation.

use vstd::prelude::*;

use crate::encoding::user_operation_hash;
use crate::primitives::{lemma_address_ext, Address, CodeHash, UserOperation, UserOperationHash, UserOperationView};
use crate::uint::U256;

verus! {

/// An operation held in the pool, under its hash.
#[derive(Clone, Debug)]
pub struct PoolEntry {
    pub hash: UserOperationHash,
    pub uo: UserOperation,
}

/// Why a mempool operation failed.
#[derive(Clone, Copy, Debug, PartialEq, Eq)]
pub enum MempoolError {
    NotFound,
}

/// An index from addresses to operation hashes.
pub type AddressIndex = Seq<(Address, UserOperationHash)>;

/// No pair occurs twice.
pub open spec fn no_dup<T>(s: Seq<T>) -> bool {
    forall|i: int, j: int| 0 <= i < j < s.len() ==> s[i] != s[j]
}

/// Number of pairs of the index under `a`.
pub open spec fn count_for(s: AddressIndex, a: Address) -> nat
    decreases s.len(),
{
    if s.len() == 0 {
        0
    } else {
        count_for(s.drop_last(), a) + if s.last().0 == a {
            1nat
        } else {
            0nat
        }
    }
}

/// The pairs of the index whose hash is not `h`, in order.
pub open spec fn without_hash(s: AddressIndex, h: UserOperationHash) -> AddressIndex
    decreases s.len(),
{
    if s.len() == 0 {
        s
    } else if s.last().1 == h {
        without_hash(s.drop_last(), h)
    } else {
        without_hash(s.drop_last(), h).push(s.last())
    }
}

/// The code hashes recorded under `h`, in order.
pub open spec fn codes_for(s: Seq<(UserOperationHash, CodeHash)>, h: UserOperationHash) -> Seq<
    CodeHash,
>
    decreases s.len(),
{
    if s.len() == 0 {
        Seq::empty()
    } else if s.last().0 == h {
        codes_for(s.drop_last(), h).push(s.last().1)
    } else {
        codes_for(s.drop_last(), h)
    }
}

/// The records of code hashes under keys other than `h`, in order.
pub open spec fn without_codes(s: Seq<(UserOperationHash, CodeHash)>, h: UserOperationHash) -> Seq<
    (UserOperationHash, CodeHash),
>
    decreases s.len(),
{
    if s.len() == 0 {
        s
    } else if s.last().0 == h {
        without_codes(s.drop_last(), h)
    } else {
        without_codes(s.drop_last(), h).push(s.last())
    }
}

/// Dropping the pairs under hash `h` keeps exactly the other pairs, and no pair twice.
pub proof fn lemma_without_hash(s: AddressIndex, h: UserOperationHash)
    ensures
        forall|x: (Address, UserOperationHash)|
            without_hash(s, h).contains(x) == (s.contains(x) && x.1 != h),
        no_dup(s) ==> no_dup(without_hash(s, h)),
    decreases s.len(),
{
    if s.len() > 0 {
        let p = s.drop_last();
        lemma_without_hash(p, h);
        assert forall|x: (Address, UserOperationHash)|
            without_hash(s, h).contains(x) == (s.contains(x) && x.1 != h) by {
            if s.contains(x) && x.1 != h {
                let w = without_hash(p, h);
                let i = choose|i: int| 0 <= i < s.len() && s[i] == x;
                if i < p.len() {
                    assert(p[i] == x);
                    assert(p.contains(x));
                    assert(w.contains(x) == (p.contains(x) && x.1 != h));
                    assert(w.contains(x));
                    let j = choose|j: int| 0 <= j < w.len() && w[j] == x;
                    if s.last().1 != h {
                        assert(w.push(s.last())[j] == x);
                    }
                } else {
                    assert(w.push(s.last())[w.len() as int] == x);
                }
            }
            if without_hash(s, h).contains(x) {
                let w = without_hash(p, h);
                if s.last().1 == h {
                    assert(w.contains(x));
                } else if x != s.last() {
                    let j = choose|j: int|
                        0 <= j < w.push(s.last()).len() && w.push(s.last())[j] == x;
                    assert(j < w.len());
                    assert(w[j] == x);
                    assert(w.contains(x));
                }
                if x != s.last() {
                    assert(p.contains(x));
                    let i = choose|i: int| 0 <= i < p.len() && p[i] == x;
                    assert(s[i] == x);
                } else {
                    assert(s[s.len() - 1] == x);
                }
            }
        }
        if no_dup(s) {
            assert(no_dup(p));
            if s.last().1 != h {
                assert(!without_hash(p, h).contains(s.last())) by {
                    if p.contains(s.last()) {
                        let i = choose|i: int| 0 <= i < p.len() && p[i] == s.last();
                        assert(s[i] == s[s.len() - 1]);
                    }
                }
            }
        }
    }
}

/// Dropping the records under `h` empties the list under `h` and keeps the others.
pub proof fn lemma_codes(s: Seq<(UserOperationHash, CodeHash)>, h: UserOperationHash)
    ensures
        codes_for(without_codes(s, h), h) == Seq::<CodeHash>::empty(),
        forall|g: UserOperationHash| g != h ==> codes_for(without_codes(s, h), g) == codes_for(s, g),
    decreases s.len(),
{
    if s.len() > 0 {
        let p = s.drop_last();
        lemma_codes(p, h);
        let w = without_codes(p, h);
        if s.last().0 != h {
            assert(w.push(s.last()).drop_last() =~= w);
        }
        assert forall|g: UserOperationHash| g != h implies codes_for(without_codes(s, h), g)
            == codes_for(s, g) by {
            assert(codes_for(without_codes(p, h), g) == codes_for(p, g));
        }
    }
}

/// One operation per hash, and both indexes agree with the operations:
/// each operation is indexed under its sender and under its factory and
/// paymaster, and each index pair names an operation under the address it
/// is filed by.
pub open spec fn tables_wf(
    ops: Seq<PoolEntry>,
    by_sender: AddressIndex,
    by_entity: AddressIndex,
) -> bool {
    &&& forall|i: int, j: int|
        0 <= i < j < ops.len() ==> ops[i].hash != ops[j].hash
    &&& no_dup(by_sender)
    &&& no_dup(by_entity)
    &&& forall|k: int|
        #![trigger by_sender[k]] 0 <= k < by_sender.len() ==> exists|i: int|
            0 <= i < ops.len() && ops[i].hash == by_sender[k].1
                && ops[i].uo.sender == by_sender[k].0
    &&& forall|i: int|
        0 <= i < ops.len() ==> by_sender.contains(
            (#[trigger] ops[i].uo.sender, ops[i].hash),
        )
    &&& forall|k: int|
        #![trigger by_entity[k]] 0 <= k < by_entity.len() ==> exists|i: int|
            0 <= i < ops.len() && ops[i].hash == by_entity[k].1
                && ops[i].uo@.names_entity(by_entity[k].0.bytes@)
    &&& forall|i: int, a: Address|
        0 <= i < ops.len() && #[trigger] ops[i].uo@.names_entity(a.bytes@)
            ==> by_entity.contains((a, ops[i].hash))
}

/// In-memory mempool.
pub struct MemoryMempool {
    pub user_operations: Vec<PoolEntry>,
    pub user_operations_by_sender: Vec<(Address, UserOperationHash)>,
    pub user_operations_by_entity: Vec<(Address, UserOperationHash)>,
    pub code_hashes_by_user_operation: Vec<(UserOperationHash, CodeHash)>,
}

impl MemoryMempool {
    pub open spec fn ops(&self) -> Seq<PoolEntry> {
        self.user_operations@
    }

    pub open spec fn by_sender(&self) -> AddressIndex {
        self.user_operations_by_sender@
    }

    pub open spec fn by_entity(&self) -> AddressIndex {
        self.user_operations_by_entity@
    }

    pub open spec fn codes(&self) -> Seq<(UserOperationHash, CodeHash)> {
        self.code_hashes_by_user_operation@
    }

    /// The pool holds an operation under `h`.
    pub open spec fn has(&self, h: UserOperationHash) -> bool {
        exists|i: int| 0 <= i < self.ops().len() && self.ops()[i].hash == h
    }

    /// The operation held under `h`.
    pub open spec fn op_of(&self, h: UserOperationHash) -> UserOperationView {
        self.ops()[choose|i: int| 0 <= i < self.ops().len() && self.ops()[i].hash == h].uo@
    }

    /// The pool as a map from hash to operation.
    pub open spec fn pool(&self) -> Map<UserOperationHash, UserOperationView> {
        Map::new(|h: UserOperationHash| self.has(h), |h: UserOperationHash| self.op_of(h))
    }

    /// The pool's tables agree with one another.
    pub open spec fn wf(&self) -> bool {
        tables_wf(self.ops(), self.by_sender(), self.by_entity())
    }

    /// An empty mempool.
    pub fn new() -> (r: MemoryMempool)
        ensures
            r.wf(),
            r.pool() == Map::<UserOperationHash, UserOperationView>::empty(),
            r.by_sender().len() == 0,
            r.by_entity().len() == 0,
            r.codes().len() == 0,
    {
        let r = MemoryMempool {
            user_operations: Vec::new(),
            user_operations_by_sender: Vec::new(),
            user_operations_by_entity: Vec::new(),
            code_hashes_by_user_operation: Vec::new(),
        };
        assert(r.pool() =~= Map::<UserOperationHash, UserOperationView>::empty());
        r
    }
}

/// Under `wf`, the operation at position `i` is the one the pool holds under its hash.
pub proof fn lemma_op_at(m: &MemoryMempool, i: int)
    requires
        m.wf(),
        0 <= i < m.ops().len(),
    ensures
        m.has(m.ops()[i].hash),
        m.op_of(m.ops()[i].hash) == m.ops()[i].uo@,
        m.pool().contains_key(m.ops()[i].hash),
        m.pool()[m.ops()[i].hash] == m.ops()[i].uo@,
{
    let h = m.ops()[i].hash;
    let k = choose|k: int| 0 <= k < m.ops().len() && m.ops()[k].hash == h;
    if k != i {
        if k < i {
            assert(m.ops()[k].hash != m.ops()[i].hash);
        } else {
            assert(m.ops()[i].hash != m.ops()[k].hash);
        }
    }
}

/// Taking the operation at `i0` out of the pool, with every index pair
/// under its hash, keeps the pool well formed and removes just that hash.
pub proof fn lemma_remove_keeps_wf(m: MemoryMempool, n: MemoryMempool, i0: int)
    requires
        m.wf(),
        0 <= i0 < m.ops().len(),
        n.ops() == m.ops().remove(i0),
        n.by_sender() == without_hash(m.by_sender(), m.ops()[i0].hash),
        n.by_entity() == without_hash(m.by_entity(), m.ops()[i0].hash),
    ensures
        n.wf(),
        n.pool() == m.pool().remove(m.ops()[i0].hash),
{
    let h = m.ops()[i0].hash;
    let o = m.ops();
    let q = n.ops();
    lemma_without_hash(m.by_sender(), h);
    lemma_without_hash(m.by_entity(), h);
    assert forall|j: int| 0 <= j < o.len() && j != i0 implies o[j].hash != h by {
        if j < i0 {
            assert(o[j].hash != o[i0].hash);
        } else {
            assert(o[i0].hash != o[j].hash);
        }
    }
    assert forall|k: int| 0 <= k < q.len() implies q[k] == o[if k < i0 { k } else { k + 1 }] by {}
    assert forall|i: int, j: int| 0 <= i < j < q.len() implies q[i].hash != q[j].hash by {
        let a = if i < i0 { i } else { i + 1 };
        let b = if j < i0 { j } else { j + 1 };
        assert(o[a].hash != o[b].hash);
    }
    assert forall|k: int| #![trigger n.by_sender()[k]] 0 <= k < n.by_sender().len() implies exists|i: int|
        0 <= i < q.len() && q[i].hash == n.by_sender()[k].1 && q[i].uo.sender
            == n.by_sender()[k].0 by {
        let x = n.by_sender()[k];
        assert(n.by_sender().contains(x));
        assert(m.by_sender().contains(x));
        let kk = choose|kk: int| 0 <= kk < m.by_sender().len() && m.by_sender()[kk] == x;
        let i = choose|i: int|
            0 <= i < o.len() && o[i].hash == m.by_sender()[kk].1 && o[i].uo.sender
                == m.by_sender()[kk].0;
        let t = if i < i0 { i } else { i - 1 };
        assert(q[t] == o[i]);
    }
    assert forall|k: int| 0 <= k < q.len() implies n.by_sender().contains(
        (#[trigger] q[k].uo.sender, q[k].hash),
    ) by {
        let j = if k < i0 { k } else { k + 1 };
        assert(m.by_sender().contains((o[j].uo.sender, o[j].hash)));
    }
    assert forall|k: int| #![trigger n.by_entity()[k]] 0 <= k < n.by_entity().len() implies exists|i: int|
        0 <= i < q.len() && q[i].hash == n.by_entity()[k].1 && q[i].uo@.names_entity(
            n.by_entity()[k].0.bytes@,
        ) by {
        let x = n.by_entity()[k];
        assert(n.by_entity().contains(x));
        assert(m.by_entity().contains(x));
        let kk = choose|kk: int| 0 <= kk < m.by_entity().len() && m.by_entity()[kk] == x;
        let i = choose|i: int|
            0 <= i < o.len() && o[i].hash == m.by_entity()[kk].1 && o[i].uo@.names_entity(
                m.by_entity()[kk].0.bytes@,
            );
        let t = if i < i0 { i } else { i - 1 };
        assert(q[t] == o[i]);
    }
    assert forall|k: int, a: Address|
        0 <= k < q.len() && #[trigger] q[k].uo@.names_entity(a.bytes@) implies n.by_entity().contains(
        (a, q[k].hash),
    ) by {
        let j = if k < i0 { k } else { k + 1 };
        assert(o[j].uo@.names_entity(a.bytes@));
        assert(m.by_entity().contains((a, o[j].hash)));
    }
    assert(n.wf());
    assert forall|g: UserOperationHash| #[trigger] n.pool().contains_key(g) == (m.pool().contains_key(g)
        && g != h) by {
        if n.has(g) {
            let k = choose|k: int| 0 <= k < q.len() && q[k].hash == g;
            let j = if k < i0 { k } else { k + 1 };
            assert(o[j].hash == g);
        }
        if m.has(g) && g != h {
            let j = choose|j: int| 0 <= j < o.len() && o[j].hash == g;
            let t = if j < i0 { j } else { j - 1 };
            assert(q[t].hash == g);
        }
    }
    assert forall|g: UserOperationHash| #[trigger] n.pool().contains_key(g) implies n.pool()[g]
        == m.pool()[g] by {
        let k = choose|k: int| 0 <= k < q.len() && q[k].hash == g;
        let j = if k < i0 { k } else { k + 1 };
        lemma_op_at(&n, k);
        lemma_op_at(&m, j);
    }
    assert(n.pool() =~= m.pool().remove(h));
}

/// Adding an operation under a hash that the pool does not hold, indexed
/// under its sender and its entities, keeps the pool well formed.
pub proof fn lemma_push_keeps_wf(
    m: MemoryMempool,
    n: MemoryMempool,
    e: PoolEntry,
    ent: Seq<(Address, UserOperationHash)>,
)
    requires
        m.wf(),
        !m.has(e.hash),
        n.ops() == m.ops().push(e),
        n.by_sender() == m.by_sender().push((e.uo.sender, e.hash)),
        n.by_entity() == m.by_entity() + ent,
        no_dup(ent),
        forall|k: int| 0 <= k < ent.len() ==> (#[trigger] ent[k]).1 == e.hash && e.uo@.names_entity(
            ent[k].0.bytes@,
        ),
        forall|a: Address| #[trigger] e.uo@.names_entity(a.bytes@) ==> ent.contains((a, e.hash)),
    ensures
        n.wf(),
        n.pool() == m.pool().insert(e.hash, e.uo@),
{
    let last = m.ops().len() as int;
    assert forall|k: int| 0 <= k < m.by_sender().len() implies m.by_sender()[k].1 != e.hash by {
        let i = choose|i: int|
            0 <= i < m.ops().len() && m.ops()[i].hash == m.by_sender()[k].1 && m.ops()[i].uo.sender
                == m.by_sender()[k].0;
    }
    assert forall|k: int| 0 <= k < m.by_entity().len() implies m.by_entity()[k].1 != e.hash by {
        let i = choose|i: int|
            0 <= i < m.ops().len() && m.ops()[i].hash == m.by_entity()[k].1 && m.ops()[i].uo@.names_entity(
                m.by_entity()[k].0.bytes@,
            );
    }
    assert forall|i: int, j: int| 0 <= i < j < n.ops().len() implies n.ops()[i].hash != n.ops()[j].hash by {
        if j == last {
            assert(m.ops()[i].hash != e.hash);
        }
    }
    assert(no_dup(n.by_sender()));
    assert forall|i: int, j: int|
        0 <= i < j < n.by_entity().len() implies n.by_entity()[i] != n.by_entity()[j] by {
        let ml = m.by_entity().len() as int;
        if i < ml && j >= ml {
            assert(ent[j - ml].1 == e.hash);
        }
    }
    assert forall|k: int| #![trigger n.by_sender()[k]] 0 <= k < n.by_sender().len() implies exists|i: int|
        0 <= i < n.ops().len() && n.ops()[i].hash == n.by_sender()[k].1 && n.ops()[i].uo.sender
            == n.by_sender()[k].0 by {
        if k == m.by_sender().len() {
            assert(n.ops()[last] == e);
        } else {
            assert(0 <= k < m.by_sender().len());
            assert(n.by_sender()[k] == m.by_sender()[k]);
            let i = choose|i: int|
                0 <= i < m.ops().len() && m.ops()[i].hash == m.by_sender()[k].1 && m.ops()[i].uo.sender
                    == m.by_sender()[k].0;
            assert(n.ops()[i] == m.ops()[i]);
            assert(n.ops()[i].hash == n.by_sender()[k].1);
            assert(n.ops()[i].uo.sender == n.by_sender()[k].0);
        }
    }
    assert forall|k: int| 0 <= k < n.ops().len() implies n.by_sender().contains(
        (#[trigger] n.ops()[k].uo.sender, n.ops()[k].hash),
    ) by {
        if k == last {
            assert(n.by_sender()[m.by_sender().len() as int] == (e.uo.sender, e.hash));
        } else {
            assert(n.ops()[k] == m.ops()[k]);
            assert(m.by_sender().contains((m.ops()[k].uo.sender, m.ops()[k].hash)));
            let j = choose|j: int|
                0 <= j < m.by_sender().len() && m.by_sender()[j] == (m.ops()[k].uo.sender, m.ops()[k].hash);
            assert(n.by_sender()[j] == m.by_sender()[j]);
        }
    }
    assert forall|k: int| #![trigger n.by_entity()[k]] 0 <= k < n.by_entity().len() implies exists|i: int|
        0 <= i < n.ops().len() && n.ops()[i].hash == n.by_entity()[k].1 && n.ops()[i].uo@.names_entity(
            n.by_entity()[k].0.bytes@,
        ) by {
        let ml = m.by_entity().len() as int;
        if k >= ml {
            assert(n.by_entity()[k] == ent[k - ml]);
            assert(n.ops()[last] == e);
        } else {
            assert(n.by_entity()[k] == m.by_entity()[k]);
            let i = choose|i: int|
                0 <= i < m.ops().len() && m.ops()[i].hash == m.by_entity()[k].1
                    && m.ops()[i].uo@.names_entity(m.by_entity()[k].0.bytes@);
            assert(n.ops()[i] == m.ops()[i]);
        }
    }
    assert forall|k: int, a: Address|
        0 <= k < n.ops().len() && #[trigger] n.ops()[k].uo@.names_entity(a.bytes@) implies n.by_entity().contains(
        (a, n.ops()[k].hash),
    ) by {
        let ml = m.by_entity().len() as int;
        if k == last {
            assert(n.ops()[k] == e);
            assert(ent.contains((a, e.hash)));
            let j = choose|j: int| 0 <= j < ent.len() && ent[j] == (a, e.hash);
            assert(n.by_entity()[ml + j] == ent[j]);
        } else {
            assert(n.ops()[k] == m.ops()[k]);
            assert(m.by_entity().contains((a, m.ops()[k].hash)));
            let j = choose|j: int| 0 <= j < ml && m.by_entity()[j] == (a, m.ops()[k].hash);
            assert(n.by_entity()[j] == m.by_entity()[j]);
        }
    }
    assert forall|g: UserOperationHash| #[trigger] n.pool().contains_key(g) == (m.pool().contains_key(g)
        || g == e.hash) by {
        if n.has(g) {
            let k = choose|k: int| 0 <= k < n.ops().len() && n.ops()[k].hash == g;
            if k < last {
                assert(m.ops()[k].hash == g);
            }
        }
        if m.has(g) {
            let j = choose|j: int| 0 <= j < m.ops().len() && m.ops()[j].hash == g;
            assert(n.ops()[j].hash == g);
        }
        if g == e.hash {
            assert(n.ops()[last].hash == g);
        }
    }
    assert forall|g: UserOperationHash| #[trigger] n.pool().contains_key(g) implies n.pool()[g]
        == m.pool().insert(e.hash, e.uo@)[g] by {
        let k = choose|k: int| 0 <= k < n.ops().len() && n.ops()[k].hash == g;
        lemma_op_at(&n, k);
        if k < last {
            assert(n.ops()[k] == m.ops()[k]);
            lemma_op_at(&m, k);
        }
    }
    assert(n.pool() =~= m.pool().insert(e.hash, e.uo@));
}

fn retain_other_hashes(v: &Vec<(Address, UserOperationHash)>, h: &UserOperationHash) -> (r: Vec<
    (Address, UserOperationHash),
>)
    ensures
        r@ == without_hash(v@, *h),
{
    let mut out: Vec<(Address, UserOperationHash)> = Vec::new();
    let mut i: usize = 0;
    while i < v.len()
        invariant
            i <= v@.len(),
            out@ == without_hash(v@.subrange(0, i as int), *h),
        decreases v@.len() - i,
    {
        proof {
            assert(v@.subrange(0, i + 1).drop_last() =~= v@.subrange(0, i as int));
        }
        let x = v[i];
        if x.1 != *h {
            out.push(x);
        }
        i = i + 1;
    }
    proof {
        assert(v@.subrange(0, v@.len() as int) =~= v@);
    }
    out
}

fn retain_other_codes(v: &Vec<(UserOperationHash, CodeHash)>, h: &UserOperationHash) -> (r: Vec<
    (UserOperationHash, CodeHash),
>)
    ensures
        r@ == without_codes(v@, *h),
{
    let mut out: Vec<(UserOperationHash, CodeHash)> = Vec::new();
    let mut i: usize = 0;
    while i < v.len()
        invariant
            i <= v@.len(),
            out@ == without_codes(v@.subrange(0, i as int), *h),
        decreases v@.len() - i,
    {
        proof {
            assert(v@.subrange(0, i + 1).drop_last() =~= v@.subrange(0, i as int));
        }
        let x = v[i];
        if x.0 != *h {
            out.push(x);
        }
        i = i + 1;
    }
    proof {
        assert(v@.subrange(0, v@.len() as int) =~= v@);
    }
    out
}

fn count_address(v: &Vec<(Address, UserOperationHash)>, a: &Address) -> (r: usize)
    ensures
        r == count_for(v@, *a),
{
    let mut c: usize = 0;
    let mut i: usize = 0;
    while i < v.len()
        invariant
            i <= v@.len(),
            c == count_for(v@.subrange(0, i as int), *a),
            c <= i,
        decreases v@.len() - i,
    {
        proof {
            assert(v@.subrange(0, i + 1).drop_last() =~= v@.subrange(0, i as int));
        }
        if v[i].0 == *a {
            c = c + 1;
        }
        i = i + 1;
    }
    proof {
        assert(v@.subrange(0, v@.len() as int) =~= v@);
    }
    c
}

impl MemoryMempool {
    /// Position of the operation held under `h`.
    fn position(&self, h: &UserOperationHash) -> (r: Option<usize>)
        ensures
            r matches Some(i) ==> i < self.ops().len() && self.ops()[i as int].hash == *h,
            r is None ==> !self.has(*h),
    {
        let mut i: usize = 0;
        while i < self.user_operations.len()
            invariant
                i <= self.ops().len(),
                forall|j: int| 0 <= j < i ==> self.ops()[j].hash != *h,
            decreases self.ops().len() - i,
        {
            if self.user_operations[i].hash == *h {
                return Some(i);
            }
            i = i + 1;
        }
        None
    }

    /// Takes the operation held under `h` and its index entries out of the
    /// pool, leaving its code hashes; `NotFound` when the pool holds none.
    fn detach(&mut self, h: &UserOperationHash) -> (r: Result<(), MempoolError>)
        requires
            old(self).wf(),
        ensures
            final(self).wf(),
            r is Ok == old(self).has(*h),
            r is Err ==> r == Err::<(), MempoolError>(MempoolError::NotFound) && *final(self)
                == *old(self),
            final(self).pool() == old(self).pool().remove(*h),
            final(self).codes() == old(self).codes(),
            r is Ok ==> final(self).by_sender() == without_hash(old(self).by_sender(), *h)
                && final(self).by_entity() == without_hash(old(self).by_entity(), *h),
    {
        match self.position(h) {
            None => {
                proof {
                    assert(self.pool() =~= self.pool().remove(*h));
                }
                Err(MempoolError::NotFound)
            },
            Some(i) => {
                let ghost m = *self;
                self.user_operations.remove(i);
                self.user_operations_by_sender = retain_other_hashes(
                    &self.user_operations_by_sender,
                    h,
                );
                self.user_operations_by_entity = retain_other_hashes(
                    &self.user_operations_by_entity,
                    h,
                );
                proof {
                    lemma_remove_keeps_wf(m, *self, i as int);
                }
                Ok(())
            },
        }
    }

    /// Removes the operation held under `h`, with its index entries and its
    /// code hashes; `NotFound` when the pool holds none.
    pub fn remove(&mut self, h: &UserOperationHash) -> (r: Result<(), MempoolError>)
        requires
            old(self).wf(),
        ensures
            final(self).wf(),
            r is Ok == old(self).has(*h),
            r is Err ==> r == Err::<(), MempoolError>(MempoolError::NotFound) && *final(self)
                == *old(self),
            final(self).pool() == old(self).pool().remove(*h),
            r is Ok ==> final(self).by_sender() == without_hash(old(self).by_sender(), *h)
                && final(self).by_entity() == without_hash(old(self).by_entity(), *h)
                && final(self).codes() == without_codes(old(self).codes(), *h),
    {
        match self.detach(h) {
            Ok(()) => {},
            Err(e) => {
                return Err(e);
            },
        }
        let ghost m = *self;
        self.code_hashes_by_user_operation = retain_other_codes(
            &self.code_hashes_by_user_operation,
            h,
        );
        proof {
            assert(self.ops() == m.ops() && self.by_sender() == m.by_sender() && self.by_entity()
                == m.by_entity());
            assert(self.pool() =~= m.pool());
        }
        Ok(())
    }
}

impl MemoryMempool {
    /// Adds `uo` under its hash for entry point `ep` on chain `chain_id`,
    /// indexed under its sender, factory and paymaster. An operation held
    /// under the same hash is replaced; recorded code hashes stay as they are.
    pub fn add(&mut self, uo: UserOperation, ep: &Address, chain_id: &U256) -> (r: Result<
        UserOperationHash,
        MempoolError,
    >)
        requires
            old(self).wf(),
        ensures
            final(self).wf(),
            r is Ok,
            r matches Ok(h) ==> h.bytes@ == user_operation_hash(uo@, *ep, *chain_id)
                && final(self).pool() == old(self).pool().insert(h, uo@),
            final(self).codes() == old(self).codes(),
    {
        let h = uo.hash(ep, chain_id);
        let _ = self.detach(&h);
        let ghost m = *self;
        proof {
            assert(!m.pool().contains_key(h));
        }
        let (sender, factory, paymaster) = uo.get_entities();
        self.user_operations_by_sender.push((sender, h));
        let ghost mut ent: Seq<(Address, UserOperationHash)> = Seq::empty();
        match factory {
            Some(f) => {
                self.user_operations_by_entity.push((f, h));
                proof {
                    ent = ent.push((f, h));
                }
            },
            None => {},
        }
        match paymaster {
            Some(p) => {
                let same = match factory {
                    Some(f) => f == p,
                    None => false,
                };
                if !same {
                    self.user_operations_by_entity.push((p, h));
                    proof {
                        ent = ent.push((p, h));
                    }
                }
            },
            None => {},
        }
        let ghost e = PoolEntry { hash: h, uo };
        self.user_operations.push(PoolEntry { hash: h, uo });
        proof {
            assert(self.by_entity() =~= m.by_entity() + ent);
            assert(self.by_sender() =~= m.by_sender().push((e.uo.sender, e.hash)));
            assert forall|a: Address| #[trigger] e.uo@.names_entity(a.bytes@) implies ent.contains(
                (a, e.hash),
            ) by {
                if e.uo@.factory() == Some(a.bytes@) {
                    let f = factory.unwrap();
                    lemma_address_ext(a, f);
                    assert(ent[0] == (a, e.hash));
                } else {
                    let p = paymaster.unwrap();
                    lemma_address_ext(a, p);
                    assert(ent[ent.len() - 1] == (a, e.hash) || ent[0] == (a, e.hash));
                }
            }
            lemma_push_keeps_wf(m, *self, e, ent);
            assert(self.pool() =~= old(self).pool().insert(h, e.uo@));
        }
        Ok(h)
    }

    /// The operation held under `h`.
    pub fn get(&self, h: &UserOperationHash) -> (r: Option<UserOperation>)
        requires
            self.wf(),
        ensures
            r is Some == self.pool().contains_key(*h),
            r matches Some(uo) ==> uo@ == self.pool()[*h],
    {
        match self.position(h) {
            Some(i) => {
                proof {
                    lemma_op_at(self, i as int);
                }
                Some(self.user_operations[i].uo.duplicate())
            },
            None => None,
        }
    }

    /// Number of operations indexed under sender `a`.
    pub fn get_number_by_sender(&self, a: &Address) -> (r: usize)
        ensures
            r == count_for(self.by_sender(), *a),
    {
        count_address(&self.user_operations_by_sender, a)
    }

    /// Number of operations indexed under factory or paymaster `a`.
    pub fn get_number_by_entity(&self, a: &Address) -> (r: usize)
        ensures
            r == count_for(self.by_entity(), *a),
    {
        count_address(&self.user_operations_by_entity, a)
    }

    /// Whether code hashes are recorded under `h`.
    pub fn has_code_hashes(&self, h: &UserOperationHash) -> (r: bool)
        ensures
            r == (codes_for(self.codes(), *h).len() > 0),
    {
        let mut i: usize = 0;
        while i < self.code_hashes_by_user_operation.len()
            invariant
                i <= self.codes().len(),
                codes_for(self.codes().subrange(0, i as int), *h).len() == 0,
            decreases self.codes().len() - i,
        {
            proof {
                assert(self.codes().subrange(0, i + 1).drop_last() =~= self.codes().subrange(
                    0,
                    i as int,
                ));
            }
            if self.code_hashes_by_user_operation[i].0 == *h {
                proof {
                    lemma_codes_prefix(self.codes(), *h, i + 1);
                }
                return true;
            }
            i = i + 1;
        }
        proof {
            assert(self.codes().subrange(0, self.codes().len() as int) =~= self.codes());
        }
        false
    }

    /// The code hashes recorded under `h`, in the order they were set.
    pub fn get_code_hashes(&self, h: &UserOperationHash) -> (r: Vec<CodeHash>)
        ensures
            r@ == codes_for(self.codes(), *h),
    {
        let mut out: Vec<CodeHash> = Vec::new();
        let mut i: usize = 0;
        while i < self.code_hashes_by_user_operation.len()
            invariant
                i <= self.codes().len(),
                out@ == codes_for(self.codes().subrange(0, i as int), *h),
            decreases self.codes().len() - i,
        {
            proof {
                assert(self.codes().subrange(0, i + 1).drop_last() =~= self.codes().subrange(
                    0,
                    i as int,
                ));
            }
            let x = self.code_hashes_by_user_operation[i];
            if x.0 == *h {
                out.push(x.1);
            }
            i = i + 1;
        }
        proof {
            assert(self.codes().subrange(0, self.codes().len() as int) =~= self.codes());
        }
        out
    }

    /// Records `hashes` as the code hashes of `h`, in place of earlier ones.
    pub fn set_code_hashes(&mut self, h: &UserOperationHash, hashes: &Vec<CodeHash>)
        ensures
            codes_for(final(self).codes(), *h) == hashes@,
            forall|g: UserOperationHash|
                g != *h ==> codes_for(final(self).codes(), g) == codes_for(old(self).codes(), g),
            final(self).ops() == old(self).ops(),
            final(self).by_sender() == old(self).by_sender(),
            final(self).by_entity() == old(self).by_entity(),
    {
        self.code_hashes_by_user_operation = retain_other_codes(
            &self.code_hashes_by_user_operation,
            h,
        );
        proof {
            lemma_codes(old(self).codes(), *h);
        }
        let mut i: usize = 0;
        while i < hashes.len()
            invariant
                i <= hashes@.len(),
                codes_for(self.codes(), *h) == hashes@.subrange(0, i as int),
                forall|g: UserOperationHash|
                    g != *h ==> codes_for(self.codes(), g) == codes_for(old(self).codes(), g),
                self.ops() == old(self).ops(),
                self.by_sender() == old(self).by_sender(),
                self.by_entity() == old(self).by_entity(),
            decreases hashes@.len() - i,
        {
            let ghost before = self.codes();
            self.code_hashes_by_user_operation.push((*h, hashes[i]));
            proof {
                assert(self.codes().drop_last() =~= before);
                assert(hashes@.subrange(0, i + 1) =~= hashes@.subrange(0, i as int).push(
                    hashes@[i as int],
                ));
            }
            i = i + 1;
        }
        proof {
            assert(hashes@.subrange(0, hashes@.len() as int) =~= hashes@);
        }
    }
}

/// A record under `h` within the first `n` records makes the list under `h` non-empty.
pub proof fn lemma_codes_prefix(s: Seq<(UserOperationHash, CodeHash)>, h: UserOperationHash, n: int)
    requires
        0 < n <= s.len(),
        s[n - 1].0 == h,
    ensures
        codes_for(s, h).len() > 0,
    decreases s.len(),
{
    if n < s.len() {
        assert(s.drop_last()[n - 1] == s[n - 1]);
        lemma_codes_prefix(s.drop_last(), h, n);
    }
}

/// The hashes filed under `a` in the index, in order.
pub open spec fn hashes_under(s: AddressIndex, a: Address) -> Seq<UserOperationHash>
    decreases s.len(),
{
    if s.len() == 0 {
        Seq::empty()
    } else if s.last().0 == a {
        hashes_under(s.drop_last(), a).push(s.last().1)
    } else {
        hashes_under(s.drop_last(), a)
    }
}

/// The hashes filed under `a` are those of the pairs under `a`.
pub proof fn lemma_hashes_under(s: AddressIndex, a: Address)
    ensures
        forall|g: UserOperationHash| #[trigger]
            hashes_under(s, a).contains(g) == s.contains((a, g)),
        forall|k: int|
            0 <= k < hashes_under(s, a).len() ==> s.contains((a, #[trigger] hashes_under(s, a)[k])),
    decreases s.len(),
{
    if s.len() > 0 {
        let p = s.drop_last();
        lemma_hashes_under(p, a);
        let w = hashes_under(p, a);
        assert forall|g: UserOperationHash| #[trigger]
            hashes_under(s, a).contains(g) == s.contains((a, g)) by {
            if s.contains((a, g)) {
                let i = choose|i: int| 0 <= i < s.len() && s[i] == (a, g);
                if i < p.len() {
                    assert(p[i] == (a, g));
                    assert(p.contains((a, g)));
                    assert(w.contains(g) == p.contains((a, g)));
                    let j = choose|j: int| 0 <= j < w.len() && w[j] == g;
                    if s.last().0 == a {
                        assert(w.push(s.last().1)[j] == g);
                    }
                } else {
                    assert(w.push(s.last().1)[w.len() as int] == g);
                }
            }
            if hashes_under(s, a).contains(g) {
                let j = choose|j: int|
                    0 <= j < hashes_under(s, a).len() && hashes_under(s, a)[j] == g;
                if s.last().0 == a && j == w.len() {
                    assert(s[s.len() - 1] == (a, g));
                } else {
                    assert(w[j] == g);
                    assert(w.contains(g));
                    assert(w.contains(g) == p.contains((a, g)));
                    assert(p.contains((a, g)));
                    let i = choose|i: int| 0 <= i < p.len() && p[i] == (a, g);
                    assert(s[i] == (a, g));
                }
            }
        }
        assert forall|k: int| 0 <= k < hashes_under(s, a).len() implies s.contains(
            (a, #[trigger] hashes_under(s, a)[k]),
        ) by {
            let g = hashes_under(s, a)[k];
            assert(hashes_under(s, a).contains(g));
        }
    }
}

pub(crate) fn collect_hashes(v: &Vec<(Address, UserOperationHash)>, a: &Address) -> (r: Vec<UserOperationHash>)
    ensures
        r@ == hashes_under(v@, *a),
{
    let mut out: Vec<UserOperationHash> = Vec::new();
    let mut i: usize = 0;
    while i < v.len()
        invariant
            i <= v@.len(),
            out@ == hashes_under(v@.subrange(0, i as int), *a),
        decreases v@.len() - i,
    {
        proof {
            assert(v@.subrange(0, i + 1).drop_last() =~= v@.subrange(0, i as int));
        }
        let x = v[i];
        if x.0 == *a {
            out.push(x.1);
        }
        i = i + 1;
    }
    proof {
        assert(v@.subrange(0, v@.len() as int) =~= v@);
    }
    out
}

/// Inserting `x` before the first element that does not precede it keeps a
/// sorted sequence sorted.
pub proof fn lemma_insert_sorted(prev: Seq<UserOperation>, x: UserOperation, pos: int)
    requires
        0 <= pos <= prev.len(),
        forall|a: int, b: int| 0 <= a < b < prev.len() ==> precedes(prev[a]@, prev[b]@),
        forall|k: int| 0 <= k < pos ==> precedes(prev[k]@, x@),
        pos < prev.len() ==> !precedes(prev[pos]@, x@),
    ensures
        forall|a: int, b: int|
            0 <= a < b < prev.insert(pos, x).len() ==> precedes(
                prev.insert(pos, x)[a]@,
                prev.insert(pos, x)[b]@,
            ),
{
    let n = prev.insert(pos, x);
    assert forall|a: int, b: int| 0 <= a < b < n.len() implies precedes(n[a]@, n[b]@) by {
        if a == pos {
            assert(n[a] == x);
            assert(n[b] == prev[b - 1]);
            if b - 1 > pos {
                assert(precedes(prev[pos]@, prev[b - 1]@));
            }
        } else if b == pos {
            assert(n[b] == x);
            assert(n[a] == prev[a]);
        } else {
            let a2 = if a < pos { a } else { a - 1 };
            let b2 = if b < pos { b } else { b - 1 };
            assert(n[a] == prev[a2]);
            assert(n[b] == prev[b2]);
        }
    }
}

/// The views of a sequence of operations.
pub open spec fn views(s: Seq<UserOperation>) -> Seq<UserOperationView> {
    s.map_values(|u: UserOperation| u@)
}

/// The views of the operations of a sequence of pool entries.
pub open spec fn entry_views(s: Seq<PoolEntry>) -> Seq<UserOperationView> {
    s.map_values(|e: PoolEntry| e.uo@)
}

/// Inserting the view of the next pool entry keeps the multiset of views
/// equal to that of the entries taken so far.
pub proof fn lemma_insert_views(
    prev: Seq<UserOperation>,
    x: UserOperation,
    pos: int,
    ops: Seq<PoolEntry>,
    i: int,
)
    requires
        0 <= pos <= prev.len(),
        0 <= i < ops.len(),
        x@ == ops[i].uo@,
        views(prev).to_multiset() == entry_views(ops.subrange(0, i)).to_multiset(),
    ensures
        views(prev.insert(pos, x)).to_multiset() == entry_views(ops.subrange(0, i + 1)).to_multiset(),
{
    assert(views(prev.insert(pos, x)) =~= views(prev).insert(pos, x@));
    vstd::seq_lib::to_multiset_insert(views(prev), pos, x@);
    assert(entry_views(ops.subrange(0, i + 1)) =~= entry_views(ops.subrange(0, i)).push(ops[i].uo@));
    vstd::seq_lib::to_multiset_build(entry_views(ops.subrange(0, i)), ops[i].uo@);
}

/// `u` is one of the operations of `ops`.
pub open spec fn in_pool(u: UserOperationView, ops: Seq<PoolEntry>) -> bool {
    exists|j: int| 0 <= j < ops.len() && u == ops[j].uo@
}

/// `u` is one of the operations of `r`.
pub open spec fn in_result(u: UserOperationView, r: Seq<UserOperation>) -> bool {
    exists|k: int| 0 <= k < r.len() && r[k]@ == u
}

/// `r` and `ops` are as long and hold the same operations.
pub open spec fn same_operations(r: Seq<UserOperation>, ops: Seq<PoolEntry>) -> bool {
    &&& r.len() == ops.len()
    &&& forall|k: int| 0 <= k < r.len() ==> #[trigger] in_pool(r[k]@, ops)
    &&& forall|j: int| 0 <= j < ops.len() ==> #[trigger] in_result(ops[j].uo@, r)
}

/// Order of the sorted pool: higher priority fee first, then lower nonce.
pub open spec fn precedes(a: UserOperationView, b: UserOperationView) -> bool {
    a.max_priority_fee_per_gas.value() > b.max_priority_fee_per_gas.value() || (
    a.max_priority_fee_per_gas.value() == b.max_priority_fee_per_gas.value() && a.nonce.value()
        <= b.nonce.value())
}

fn precedes_exec(a: &UserOperation, b: &UserOperation) -> (r: bool)
    ensures
        r == precedes(a@, b@),
{
    if b.max_priority_fee_per_gas.lt(&a.max_priority_fee_per_gas) {
        true
    } else if a.max_priority_fee_per_gas.eq_value(&b.max_priority_fee_per_gas) {
        a.nonce.le(&b.nonce)
    } else {
        false
    }
}

/// Position of the first element of `v` that `x` strictly precedes.
fn insertion_point(v: &Vec<UserOperation>, x: &UserOperation) -> (pos: usize)
    ensures
        pos <= v@.len(),
        forall|k: int| 0 <= k < pos ==> precedes(v@[k]@, x@),
        pos < v@.len() ==> !precedes(v@[pos as int]@, x@),
{
    let mut pos: usize = 0;
    while pos < v.len() && precedes_exec(&v[pos], x)
        invariant
            pos <= v@.len(),
            forall|k: int| 0 <= k < pos ==> precedes(v@[k]@, x@),
        decreases v@.len() - pos,
    {
        pos = pos + 1;
    }
    pos
}

impl MemoryMempool {
    /// All operations of the pool, in the order they are held.
    pub fn get_all(&self) -> (r: Vec<UserOperation>)
        ensures
            r@.len() == self.ops().len(),
            forall|k: int| 0 <= k < r@.len() ==> (#[trigger] r@[k])@ == self.ops()[k].uo@,
    {
        let mut out: Vec<UserOperation> = Vec::new();
        let mut i: usize = 0;
        while i < self.user_operations.len()
            invariant
                i <= self.ops().len(),
                out@.len() == i,
                forall|k: int| 0 <= k < i ==> (#[trigger] out@[k])@ == self.ops()[k].uo@,
            decreases self.ops().len() - i,
        {
            out.push(self.user_operations[i].uo.duplicate());
            i = i + 1;
        }
        out
    }

    /// The operations indexed under sender `a`, in index order.
    pub fn get_all_by_sender(&self, a: &Address) -> (r: Vec<UserOperation>)
        requires
            self.wf(),
        ensures
            r@.len() == hashes_under(self.by_sender(), *a).len(),
            forall|k: int|
                0 <= k < r@.len() ==> (#[trigger] r@[k])@ == self.pool()[hashes_under(
                    self.by_sender(),
                    *a,
                )[k]],
    {
        let hs = collect_hashes(&self.user_operations_by_sender, a);
        proof {
            lemma_hashes_under(self.by_sender(), *a);
        }
        let mut out: Vec<UserOperation> = Vec::new();
        let mut j: usize = 0;
        while j < hs.len()
            invariant
                self.wf(),
                hs@ == hashes_under(self.by_sender(), *a),
                j <= hs@.len(),
                out@.len() == j,
                forall|k: int| 0 <= k < j ==> (#[trigger] out@[k])@ == self.pool()[hs@[k]],
            decreases hs@.len() - j,
        {
            let ghost g = hs@[j as int];
            proof {
                lemma_hashes_under(self.by_sender(), *a);
                assert(hashes_under(self.by_sender(), *a)[j as int] == g);
                assert(self.by_sender().contains((*a, g)));
                let k = choose|k: int| 0 <= k < self.by_sender().len() && self.by_sender()[k] == (
                *a, g);
                assert(self.by_sender()[k].1 == g);
                let i = choose|i: int|
                    0 <= i < self.ops().len() && self.ops()[i].hash == self.by_sender()[k].1
                        && self.ops()[i].uo.sender == self.by_sender()[k].0;
                lemma_op_at(self, i);
            }
            match self.get(&hs[j]) {
                Some(uo) => {
                    out.push(uo);
                },
                None => {
                    assert(false);
                },
            }
            j = j + 1;
        }
        out
    }

    /// Empties the pool, its indexes and its code hashes.
    pub fn clear(&mut self)
        ensures
            final(self).wf(),
            final(self).pool() == Map::<UserOperationHash, UserOperationView>::empty(),
            final(self).by_sender().len() == 0,
            final(self).by_entity().len() == 0,
            final(self).codes().len() == 0,
    {
        *self = MemoryMempool::new();
    }

    /// Removes every operation that names `a` as factory or paymaster.
    pub fn remove_by_entity(&mut self, a: &Address) -> (r: Result<(), MempoolError>)
        requires
            old(self).wf(),
        ensures
            final(self).wf(),
            r is Ok,
            count_for(final(self).by_entity(), *a) == 0,
            forall|g: UserOperationHash| #[trigger]
                final(self).pool().contains_key(g) == (old(self).pool().contains_key(g)
                    && !old(self).pool()[g].names_entity(a.bytes@)),
            forall|g: UserOperationHash| #[trigger]
                final(self).pool().contains_key(g) ==> final(self).pool()[g] == old(
                    self,
                ).pool()[g],
    {
        let hs = collect_hashes(&self.user_operations_by_entity, a);
        proof {
            lemma_hashes_under(old(self).by_entity(), *a);
            let m = *old(self);
            assert forall|g: UserOperationHash| #[trigger] hs@.contains(g) == (m.pool().contains_key(
                g,
            ) && m.pool()[g].names_entity(a.bytes@)) by {
                if hs@.contains(g) {
                    assert(m.by_entity().contains((*a, g)));
                    let k = choose|k: int| 0 <= k < m.by_entity().len() && m.by_entity()[k] == (*a, g);
                    assert(m.by_entity()[k].1 == g);
                    let i = choose|i: int|
                        0 <= i < m.ops().len() && m.ops()[i].hash == m.by_entity()[k].1
                            && m.ops()[i].uo@.names_entity(m.by_entity()[k].0.bytes@);
                    lemma_op_at(&m, i);
                }
                if m.pool().contains_key(g) && m.pool()[g].names_entity(a.bytes@) {
                    let i = choose|i: int| 0 <= i < m.ops().len() && m.ops()[i].hash == g;
                    lemma_op_at(&m, i);
                    assert(m.ops()[i].uo@.names_entity(a.bytes@));
                    assert(m.by_entity().contains((*a, m.ops()[i].hash)));
                }
            }
        }
        let mut j: usize = 0;
        while j < hs.len()
            invariant
                self.wf(),
                j <= hs@.len(),
                forall|g: UserOperationHash| #[trigger]
                    self.pool().contains_key(g) == (old(self).pool().contains_key(g)
                        && !hs@.subrange(0, j as int).contains(g)),
                forall|g: UserOperationHash| #[trigger]
                    self.pool().contains_key(g) ==> self.pool()[g] == old(self).pool()[g],
            decreases hs@.len() - j,
        {
            let ghost before = self.pool();
            let _ = self.remove(&hs[j]);
            proof {
                let s1 = hs@.subrange(0, j + 1);
                let s0 = hs@.subrange(0, j as int);
                assert forall|g: UserOperationHash| #[trigger] s1.contains(g) == (s0.contains(g)
                    || g == hs@[j as int]) by {
                    if s1.contains(g) {
                        let t = choose|t: int| 0 <= t < s1.len() && s1[t] == g;
                        if t < j {
                            assert(s0[t] == g);
                        }
                    }
                    if s0.contains(g) {
                        let t = choose|t: int| 0 <= t < s0.len() && s0[t] == g;
                        assert(s1[t] == g);
                    }
                    if g == hs@[j as int] {
                        assert(s1[j as int] == g);
                    }
                }
            }
            j = j + 1;
        }
        proof {
            assert(hs@.subrange(0, hs@.len() as int) =~= hs@);
            lemma_index_counts(self, *a);
            assert forall|g: UserOperationHash| #[trigger] self.pool().contains_key(g) implies !self.pool()[g].names_entity(
                a.bytes@,
            ) by {
                assert(old(self).pool().contains_key(g) && !hs@.contains(g));
            }
            assert(self.pool().dom().filter(
                |h: UserOperationHash| self.pool()[h].names_entity(a.bytes@),
            ) =~= Set::<UserOperationHash>::empty());
        }
        Ok(())
    }

    /// The operations of the pool, highest priority fee first and, among
    /// equal fees, lowest nonce first.
    pub fn get_sorted(&self) -> (r: Vec<UserOperation>)
        ensures
            r@.len() == self.ops().len(),
            forall|a: int, b: int| 0 <= a < b < r@.len() ==> precedes(r@[a]@, r@[b]@),
            same_operations(r@, self.ops()),
            views(r@).to_multiset() == entry_views(self.ops()).to_multiset(),
    {
        let mut out: Vec<UserOperation> = Vec::new();
        let ghost mut src: Seq<int> = Seq::empty();
        let ghost mut dst: Seq<int> = Seq::empty();
        proof {
            assert(views(out@) =~= entry_views(self.ops().subrange(0, 0)));
        }
        let mut i: usize = 0;
        while i < self.user_operations.len()
            invariant
                i <= self.ops().len(),
                out@.len() == i,
                src.len() == i,
                dst.len() == i,
                forall|a: int, b: int| 0 <= a < b < out@.len() ==> precedes(out@[a]@, out@[b]@),
                views(out@).to_multiset() == entry_views(self.ops().subrange(0, i as int)).to_multiset(),
                forall|k: int|
                    0 <= k < i ==> 0 <= #[trigger] src[k] < i && out@[k]@ == self.ops()[src[k]].uo@,
                forall|t: int|
                    0 <= t < i ==> 0 <= #[trigger] dst[t] < i && out@[dst[t]]@ == self.ops()[t].uo@,
            decreases self.ops().len() - i,
        {
            let x = self.user_operations[i].uo.duplicate();
            let pos = insertion_point(&out, &x);
            let ghost prev = out@;
            out.insert(pos, x);
            proof {
                lemma_insert_sorted(prev, x, pos as int);
                lemma_insert_views(prev, x, pos as int, self.ops(), i as int);
                let p = pos as int;
                let n = out@;
                assert(n == prev.insert(p, x));
                let src2 = src.insert(p, i as int);
                let dst2 = Seq::new(
                    (i + 1) as nat,
                    |t: int|
                        if t == i {
                            p
                        } else if dst[t] < p {
                            dst[t]
                        } else {
                            dst[t] + 1
                        },
                );
                assert forall|k: int| 0 <= k < i + 1 implies 0 <= #[trigger] src2[k] < i + 1
                    && n[k]@ == self.ops()[src2[k]].uo@ by {
                    if k < p {
                        assert(n[k] == prev[k]);
                        assert(src2[k] == src[k]);
                    } else if k > p {
                        assert(n[k] == prev[k - 1]);
                        assert(src2[k] == src[k - 1]);
                    }
                }
                assert forall|t: int| 0 <= t < i + 1 implies 0 <= #[trigger] dst2[t] < i + 1
                    && n[dst2[t]]@ == self.ops()[t].uo@ by {
                    if t < i {
                        if dst[t] < p {
                            assert(n[dst[t]] == prev[dst[t]]);
                        } else {
                            assert(n[dst[t] + 1] == prev[dst[t]]);
                        }
                    }
                }
                src = src2;
                dst = dst2;
            }
            i = i + 1;
        }
        proof {
            assert(self.ops().subrange(0, self.ops().len() as int) =~= self.ops());
            assert forall|k: int| 0 <= k < out@.len() implies #[trigger] in_pool(out@[k]@, self.ops()) by {
                assert(0 <= src[k] < self.ops().len() && out@[k]@ == self.ops()[src[k]].uo@);
            }
            assert forall|j: int| 0 <= j < self.ops().len() implies #[trigger] in_result(
                self.ops()[j].uo@,
                out@,
            ) by {
                assert(0 <= dst[j] < out@.len() && out@[dst[j]]@ == self.ops()[j].uo@);
            }
        }
        out
    }
}

/// The index holds as many pairs under `a` as it files hashes under `a`.
pub proof fn lemma_count_hashes(s: AddressIndex, a: Address)
    ensures
        count_for(s, a) == hashes_under(s, a).len(),
    decreases s.len(),
{
    if s.len() > 0 {
        lemma_count_hashes(s.drop_last(), a);
    }
}

/// In a well-formed pool every operation is filed under its sender, its
/// factory and its paymaster, and every index pair names an operation of
/// the pool that has that sender, or that factory or paymaster.
pub proof fn lemma_index_consistency(m: &MemoryMempool)
    requires
        m.wf(),
    ensures
        forall|h: UserOperationHash| #[trigger]
            m.pool().contains_key(h) ==> m.by_sender().contains((m.pool()[h].sender, h)),
        forall|h: UserOperationHash, a: Address|
            m.pool().contains_key(h) && #[trigger] m.pool()[h].names_entity(a.bytes@)
                ==> m.by_entity().contains((a, h)),
        forall|k: int|
            0 <= k < m.by_sender().len() ==> m.pool().contains_key((#[trigger] m.by_sender()[k]).1)
                && m.pool()[m.by_sender()[k].1].sender == m.by_sender()[k].0,
        forall|k: int|
            0 <= k < m.by_entity().len() ==> m.pool().contains_key((#[trigger] m.by_entity()[k]).1)
                && m.pool()[m.by_entity()[k].1].names_entity(m.by_entity()[k].0.bytes@),
{
    assert forall|h: UserOperationHash| #[trigger] m.pool().contains_key(h) implies m.by_sender().contains(
        (m.pool()[h].sender, h),
    ) by {
        let i = choose|i: int| 0 <= i < m.ops().len() && m.ops()[i].hash == h;
        lemma_op_at(m, i);
        assert(m.by_sender().contains((m.ops()[i].uo.sender, m.ops()[i].hash)));
    }
    assert forall|h: UserOperationHash, a: Address|
        m.pool().contains_key(h) && #[trigger] m.pool()[h].names_entity(a.bytes@) implies m.by_entity().contains(
        (a, h),
    ) by {
        let i = choose|i: int| 0 <= i < m.ops().len() && m.ops()[i].hash == h;
        lemma_op_at(m, i);
        assert(m.ops()[i].uo@.names_entity(a.bytes@));
    }
    assert forall|k: int| 0 <= k < m.by_sender().len() implies m.pool().contains_key(
        (#[trigger] m.by_sender()[k]).1,
    ) && m.pool()[m.by_sender()[k].1].sender == m.by_sender()[k].0 by {
        let i = choose|i: int|
            0 <= i < m.ops().len() && m.ops()[i].hash == m.by_sender()[k].1 && m.ops()[i].uo.sender
                == m.by_sender()[k].0;
        lemma_op_at(m, i);
    }
    assert forall|k: int| 0 <= k < m.by_entity().len() implies m.pool().contains_key(
        (#[trigger] m.by_entity()[k]).1,
    ) && m.pool()[m.by_entity()[k].1].names_entity(m.by_entity()[k].0.bytes@) by {
        let i = choose|i: int|
            0 <= i < m.ops().len() && m.ops()[i].hash == m.by_entity()[k].1
                && m.ops()[i].uo@.names_entity(m.by_entity()[k].0.bytes@);
        lemma_op_at(m, i);
    }
}

/// The hashes that a duplicate-free index files under `a` occur once each.
pub proof fn lemma_hashes_under_no_dup(s: AddressIndex, a: Address)
    requires
        no_dup(s),
    ensures
        hashes_under(s, a).no_duplicates(),
    decreases s.len(),
{
    if s.len() > 0 {
        let p = s.drop_last();
        assert(no_dup(p));
        lemma_hashes_under_no_dup(p, a);
        lemma_hashes_under(p, a);
        if s.last().0 == a {
            let w = hashes_under(p, a);
            if w.contains(s.last().1) {
                assert(p.contains((a, s.last().1)));
                let i = choose|i: int| 0 <= i < p.len() && p[i] == (a, s.last().1);
                assert(s[i] == s[s.len() - 1]);
            }
            assert forall|i: int, j: int|
                0 <= i < j < w.push(s.last().1).len() implies w.push(s.last().1)[i] != w.push(
                s.last().1,
            )[j] by {
                if j == w.len() {
                    assert(w[i] == w.push(s.last().1)[i]);
                }
            }
        }
    }
}

/// In a well-formed pool the sender index holds, under `a`, one pair per
/// operation of the pool with sender `a`, and the entity index one pair per
/// operation that names `a` as factory or paymaster. With the contract of
/// `get_all_by_sender`, which returns the operation held under each hash
/// filed under the sender, its result holds each operation of that sender
/// exactly once.
pub proof fn lemma_index_counts(m: &MemoryMempool, a: Address)
    requires
        m.wf(),
    ensures
        hashes_under(m.by_sender(), a).no_duplicates(),
        hashes_under(m.by_entity(), a).no_duplicates(),
        hashes_under(m.by_sender(), a).to_set() == m.pool().dom().filter(
            |h: UserOperationHash| m.pool()[h].sender == a,
        ),
        hashes_under(m.by_entity(), a).to_set() == m.pool().dom().filter(
            |h: UserOperationHash| m.pool()[h].names_entity(a.bytes@),
        ),
        count_for(m.by_sender(), a) == m.pool().dom().filter(
            |h: UserOperationHash| m.pool()[h].sender == a,
        ).len(),
        count_for(m.by_entity(), a) == m.pool().dom().filter(
            |h: UserOperationHash| m.pool()[h].names_entity(a.bytes@),
        ).len(),
{
    lemma_index_consistency(m);
    lemma_hashes_under(m.by_sender(), a);
    lemma_hashes_under(m.by_entity(), a);
    lemma_hashes_under_no_dup(m.by_sender(), a);
    lemma_hashes_under_no_dup(m.by_entity(), a);
    lemma_count_hashes(m.by_sender(), a);
    lemma_count_hashes(m.by_entity(), a);
    let hs = hashes_under(m.by_sender(), a);
    let he = hashes_under(m.by_entity(), a);
    let fs = m.pool().dom().filter(|h: UserOperationHash| m.pool()[h].sender == a);
    let fe = m.pool().dom().filter(|h: UserOperationHash| m.pool()[h].names_entity(a.bytes@));
    assert forall|g: UserOperationHash| hs.to_set().contains(g) == fs.contains(g) by {
        assert(hs.to_set().contains(g) == hs.contains(g));
        if m.by_sender().contains((a, g)) {
            let k = choose|k: int| 0 <= k < m.by_sender().len() && m.by_sender()[k] == (a, g);
            assert(m.by_sender()[k].1 == g);
        }
    }
    assert forall|g: UserOperationHash| he.to_set().contains(g) == fe.contains(g) by {
        assert(he.to_set().contains(g) == he.contains(g));
        if m.by_entity().contains((a, g)) {
            let k = choose|k: int| 0 <= k < m.by_entity().len() && m.by_entity()[k] == (a, g);
            assert(m.by_entity()[k].1 == g);
        }
    }
    assert(hs.to_set() =~= fs);
    assert(he.to_set() =~= fe);
    hs.unique_seq_to_set();
    he.unique_seq_to_set();
}

} // verus!

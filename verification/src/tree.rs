//! Node addressing for the perfect n-ary tree.
//!
//! A node is identified by a flat index: 0 is the synthetic root, and the
//! children of node `n` sit at indices `n * k + 1` through `n * k + k`.  The
//! parent of node `c >= 1` is `(c - 1) / k`; walking that division up to 0
//! recovers the whole ancestor chain, and with it the node's depth and its
//! 1-based rank among the nodes of its own package.

use crate::arith::geom;
use crate::arith::lemma_geom_mono;
use crate::arith::lemma_geom_step;
use crate::arith::lemma_npow_le_geom;
use crate::arith::lemma_npow_mono;
use crate::arith::lemma_npow_pos;
use crate::arith::npow;
use vstd::arithmetic::div_mod::lemma_div_decreases;
use vstd::arithmetic::div_mod::lemma_fundamental_div_mod;
use vstd::arithmetic::div_mod::lemma_mod_division_less_than_divisor;
use vstd::prelude::*;

verus! {

broadcast use vstd::std_specs::vec::group_vec_axioms, vstd::seq::group_seq_axioms;

/// Index of the parent of node `id`; the root is its own parent.
pub open spec fn parent_of(id: nat, k: nat) -> nat {
    if id == 0 || k < 2 {
        0
    } else {
        ((id - 1) as nat) / k
    }
}

/// Depth of node `id`: how many division steps reach the root.
pub open spec fn depth_of(id: nat, k: nat) -> nat
    decreases id,
{
    if id == 0 || k < 2 {
        0
    } else {
        proof {
            lemma_div_decreases((id - 1) as int + 1, k as int);
            assert(((id - 1) as nat) / k <= (id - 1) as nat) by (nonlinear_arith)
                requires
                    id >= 1,
                    k >= 2,
            ;
        }
        1 + depth_of(parent_of(id, k), k)
    }
}

/// 1-based rank of node `id` among all nodes of its depth, counted in index
/// order; 0 for the root.
pub open spec fn pos_of(id: nat, k: nat) -> nat {
    if id == 0 {
        0
    } else {
        (1 + id - geom(k, (depth_of(id, k) - 1) as nat)) as nat
    }
}

/// The indices of the nodes at depth `d` are exactly the interval from
/// `geom(k, d - 1)` (inclusive) to `geom(k, d)` (exclusive).
pub proof fn lemma_depth_interval(id: nat, k: nat)
    requires
        k >= 2,
        id >= 1,
    ensures
        depth_of(id, k) >= 1,
        geom(k, (depth_of(id, k) - 1) as nat) <= id,
        id < geom(k, depth_of(id, k)),
    decreases id,
{
    let p = parent_of(id, k);
    let r = ((id - 1) as nat) % k;
    lemma_fundamental_div_mod((id - 1) as int, k as int);
    lemma_mod_division_less_than_divisor((id - 1) as int, k as int);
    assert(id == k * p + r + 1);
    if p == 0 {
        assert(depth_of(0, k) == 0);
        assert(depth_of(id, k) == 1);
        assert(geom(k, 0) == 1);
        assert(npow(k, 0) == 1);
        assert(npow(k, 1) == k * npow(k, 0));
        assert(geom(k, 1) == 1 + k);
        assert(k * 0 == 0) by (nonlinear_arith);
    } else {
        lemma_depth_interval(p, k);
        let l = depth_of(p, k);
        assert(depth_of(id, k) == l + 1);
        lemma_geom_step(k, l);
        lemma_geom_step(k, l + 1);
        let glo = geom(k, (l - 1) as nat) as int;
        let ghi = geom(k, l) as int;
        // lower bound: id == k * p + r + 1 >= k * glo + 1 == geom(k, l)
        assert(k * p >= k * glo) by (nonlinear_arith)
            requires
                p >= glo,
                k >= 2,
        ;
        // upper bound: p <= ghi - 1, so id <= k * ghi - k + r + 1 <= k * ghi
        assert(k * p <= k * (ghi - 1)) by (nonlinear_arith)
            requires
                p <= ghi - 1,
                k >= 2,
        ;
        assert(k * (ghi - 1) == k * ghi - k) by (nonlinear_arith);
        assert(id < 1 + k * ghi);
    }
}

/// The rank of a non-root node is at least 1, at most its index, and at most
/// `k^depth` (the number of nodes that share its depth).
pub proof fn lemma_pos_bounds(id: nat, k: nat)
    requires
        k >= 2,
        id >= 1,
    ensures
        1 <= pos_of(id, k),
        pos_of(id, k) <= id,
        pos_of(id, k) <= npow(k, depth_of(id, k)),
{
    lemma_depth_interval(id, k);
    let d = depth_of(id, k);
    lemma_npow_pos(k, (d - 1) as nat);
    assert(geom(k, (d - 1) as nat) >= 1) by {
        lemma_geom_mono(k, 0, (d - 1) as nat);
    }
    assert(geom(k, d) == geom(k, (d - 1) as nat) + npow(k, d));
}

/// How a node's rank follows from its parent's: the child carrying remainder
/// `r` of parent `p` has rank `k * (pos(p) - 1) + r + 1`, and the children of
/// the root are ranked by their own index.
pub proof fn lemma_pos_step(id: nat, k: nat)
    requires
        k >= 2,
        id >= 1,
    ensures
        parent_of(id, k) == 0 ==> pos_of(id, k) == id,
        parent_of(id, k) >= 1 ==> pos_of(id, k) == k * (pos_of(parent_of(id, k), k) - 1) + ((id
            - 1) as nat) % k + 1,
{
    let p = parent_of(id, k);
    let r = ((id - 1) as nat) % k;
    lemma_fundamental_div_mod((id - 1) as int, k as int);
    lemma_mod_division_less_than_divisor((id - 1) as int, k as int);
    assert(id == k * p + r + 1);
    if p == 0 {
        assert(k * 0 == 0) by (nonlinear_arith);
        assert(depth_of(0, k) == 0);
        assert(depth_of(id, k) == 1);
        assert(geom(k, 0) == 1);
    } else {
        lemma_depth_interval(p, k);
        lemma_depth_interval(id, k);
        let l = depth_of(p, k);
        assert(depth_of(id, k) == l + 1);
        lemma_geom_step(k, l);
        let glo = geom(k, (l - 1) as nat) as int;
        // pos(id) == 1 + id - geom(k, l) == k * p + r + 2 - (1 + k * glo)
        //         == k * (p - glo) + r + 1 == k * (pos(p) - 1) + r + 1
        assert(k * (p - glo) == k * p - k * glo) by (nonlinear_arith);
        assert(pos_of(p, k) == 1 + p - glo);
    }
}

/// One addressed node of the tree.
///
/// `parents` is the ancestor chain as built by [`ID::new`]: nearest parent
/// first, the root last, so its length is the node's depth.
/// `package_relative_index` is the node's 1-based rank within its own package
/// (0 for the root).  The two configuration scalars ride along so that every
/// address is self-contained.
pub struct ID {
    pub id: u64,
    pub parents: Vec<ID>,
    pub package_relative_index: u64,
    pub targets_per_level: u64,
    pub max_depth: u64,
}

/// The mathematical shadow of an [`ID`]: the same fields with the ancestor
/// chain as a sequence of values.
#[verifier::ext_equal]
pub ghost struct Addr {
    pub index: nat,
    pub rank: nat,
    pub branching: nat,
    pub height_cap: nat,
    pub ancestors: Seq<Addr>,
}

/// The model of an [`ID`], with every ancestor modelled in turn.
pub open spec fn id_view(x: ID) -> Addr
    decreases x,
{
    Addr {
        index: x.id as nat,
        rank: x.package_relative_index as nat,
        branching: x.targets_per_level as nat,
        height_cap: x.max_depth as nat,
        ancestors: Seq::new(
            x.parents@.len() as nat,
            |j: int|
                if 0 <= j < x.parents@.len() {
                    id_view(x.parents@[j])
                } else {
                    Addr { index: 0, rank: 0, branching: 0, height_cap: 0, ancestors: Seq::empty() }
                },
        ),
    }
}

impl View for ID {
    type V = Addr;

    open spec fn view(&self) -> Addr {
        id_view(*self)
    }
}

/// A well-formed address as [`ID::new`] builds it: the ancestor chain walks
/// the parent relation all the way to the root, and depth and rank agree with
/// the index arithmetic.
pub open spec fn addr_wf(a: Addr) -> bool
    decreases a.ancestors.len(),
{
    &&& a.branching >= 2
    &&& a.ancestors.len() == depth_of(a.index, a.branching)
    &&& a.rank == pos_of(a.index, a.branching)
    &&& (a.index >= 1 ==> {
        let p = a.ancestors[0];
        &&& p.index == parent_of(a.index, a.branching)
        &&& p.branching == a.branching
        &&& p.height_cap == a.height_cap
        &&& a.ancestors == seq![p] + p.ancestors
        &&& addr_wf(p)
    })
}

/// What the model of an [`ID`] holds for each ancestor slot: the model of
/// the corresponding element of `parents`.
proof fn lemma_view_ancestors(x: ID)
    ensures
        id_view(x).ancestors.len() == x.parents@.len(),
        forall|j: int|
            0 <= j < x.parents@.len() ==> #[trigger] id_view(x).ancestors[j] == id_view(
                x.parents@[j],
            ),
{
}

/// A value copy of an address, made field by field so that the model of the
/// copy is known to equal the model of the original.
fn copy_id(x: &ID) -> (r: ID)
    ensures
        r@ == x@,
    decreases *x,
{
    let mut ps: Vec<ID> = Vec::new();
    let mut i: usize = 0;
    while i < x.parents.len()
        invariant
            i <= x.parents@.len(),
            ps@.len() == i,
            forall|j: int| 0 <= j < i ==> #[trigger] id_view(ps@[j]) == id_view(x.parents@[j]),
        decreases x.parents@.len() - i,
    {
        let c = copy_id(&x.parents[i]);
        ps.push(c);
        i = i + 1;
    }
    let r = ID {
        id: x.id,
        parents: ps,
        package_relative_index: x.package_relative_index,
        targets_per_level: x.targets_per_level,
        max_depth: x.max_depth,
    };
    proof {
        lemma_view_ancestors(r);
        lemma_view_ancestors(*x);
        assert forall|j: int| 0 <= j < id_view(r).ancestors.len() implies id_view(
            r,
        ).ancestors[j] == id_view(*x).ancestors[j] by {
            assert(id_view(ps@[j]) == id_view(x.parents@[j]));
        }
        assert(id_view(r).ancestors =~= id_view(*x).ancestors);
        assert(id_view(r) =~= id_view(*x));
    }
    r
}

impl ID {
    /// Address the node with global index `id` in a tree with branching
    /// factor `targets_per_level`: walk the parent relation up to the root to
    /// collect the ancestor chain, and rank the node within its package.
    pub fn new(id: u64, targets_per_level: u64, max_depth: u64) -> (r: ID)
        requires
            targets_per_level >= 2,
        ensures
            addr_wf(r@),
            r.id == id,
            r.targets_per_level == targets_per_level,
            r.max_depth == max_depth,
            r.parents@.len() == depth_of(id as nat, targets_per_level as nat),
            r.package_relative_index as nat == pos_of(id as nat, targets_per_level as nat),
            id >= 1 ==> r.parents@[0].id as nat == parent_of(id as nat, targets_per_level as nat),
        decreases id,
    {
        let ghost k: nat = targets_per_level as nat;
        if id == 0 {
            let r = ID {
                id: 0,
                parents: Vec::new(),
                package_relative_index: 0,
                targets_per_level,
                max_depth,
            };
            proof {
                assert(r@.ancestors =~= Seq::<Addr>::empty());
            }
            r
        } else {
            proof {
                lemma_div_decreases(id as int, targets_per_level as int);
                assert(((id - 1) as u64 / targets_per_level) < id);
            }
            let parent_id = (id - 1) / targets_per_level;
            let parent = Self::new(parent_id, targets_per_level, max_depth);
            let r_mod = (id - 1) % targets_per_level;
            proof {
                lemma_fundamental_div_mod((id - 1) as int, k as int);
                lemma_mod_division_less_than_divisor((id - 1) as int, k as int);
                lemma_pos_step(id as nat, k);
                lemma_pos_bounds(id as nat, k);
                if parent_id >= 1 {
                    lemma_pos_bounds(parent_id as nat, k);
                }
            }
            let pos = if parent_id == 0 {
                id
            } else {
                targets_per_level * (parent.package_relative_index - 1) + r_mod + 1
            };
            let mut ps: Vec<ID> = Vec::new();
            let mut i: usize = 0;
            while i < parent.parents.len()
                invariant
                    i <= parent.parents@.len(),
                    ps@.len() == i,
                    forall|j: int| 0 <= j < i ==> #[trigger] id_view(ps@[j]) == id_view(
                        parent.parents@[j],
                    ),
                decreases parent.parents@.len() - i,
            {
                let c = copy_id(&parent.parents[i]);
                ps.push(c);
                i = i + 1;
            }
            let ghost parent_addr = parent@;
            let ghost pchain = parent.parents@;
            proof {
                lemma_view_ancestors(parent);
            }
            ps.insert(0, parent);
            let r = ID {
                id,
                parents: ps,
                package_relative_index: pos,
                targets_per_level,
                max_depth,
            };
            proof {
                lemma_view_ancestors(r);
                let rhs = seq![parent_addr] + parent_addr.ancestors;
                assert(r@.ancestors.len() == rhs.len());
                assert forall|j: int| 0 <= j < r@.ancestors.len() implies r@.ancestors[j]
                    == rhs[j] by {
                    if j == 0 {
                        assert(id_view(ps@[0]) == parent_addr);
                    } else {
                        assert(id_view(ps@[j]) == id_view(pchain[j - 1]));
                        assert(parent_addr.ancestors[j - 1] == id_view(pchain[j - 1]));
                    }
                }
                assert(r@.ancestors =~= rhs);
                assert(depth_of(id as nat, k) == 1 + depth_of(parent_id as nat, k));
            }
            r
        }
    }
}

/// A value copy of a whole ancestor chain, element by element.
fn copy_ids(v: &Vec<ID>) -> (r: Vec<ID>)
    ensures
        r@.len() == v@.len(),
        forall|j: int| 0 <= j < v@.len() ==> #[trigger] id_view(r@[j]) == id_view(v@[j]),
{
    let mut r: Vec<ID> = Vec::new();
    let mut i: usize = 0;
    while i < v.len()
        invariant
            i <= v@.len(),
            r@.len() == i,
            forall|j: int| 0 <= j < i ==> #[trigger] id_view(r@[j]) == id_view(v@[j]),
        decreases v@.len() - i,
    {
        let c = copy_id(&v[i]);
        r.push(c);
        i = i + 1;
    }
    r
}

impl ID {
    /// The addresses one level below this node: `targets_per_level` children
    /// if the node is above the depth cap, none once the cap is reached.
    ///
    /// The child in slot `i` has index `id * k + i + 1` and rank
    /// `k * (rank - 1) + i + 1`; its ancestor chain is this node followed by
    /// this node's own chain, so every child is a well-formed address whose
    /// nearest parent is this node.
    pub fn children(&self) -> (r: Vec<ID>)
        requires
            self.parents@.len() < self.max_depth ==> addr_wf(self@),
            self.parents@.len() < self.max_depth ==> self.id >= 1,
            self.parents@.len() < self.max_depth ==> geom(
                self.targets_per_level as nat,
                self.max_depth as nat,
            ) <= u64::MAX as nat + 1,
        ensures
            self.parents@.len() >= self.max_depth ==> r@.len() == 0,
            self.parents@.len() < self.max_depth ==> r@.len() == self.targets_per_level,
            forall|i: int|
                #![trigger r@[i]]
                0 <= i < r@.len() ==> {
                    &&& r@[i].id as int == self.id as int * self.targets_per_level as int + i + 1
                    &&& parent_of(r@[i].id as nat, self.targets_per_level as nat) == self.id
                    &&& r@[i].package_relative_index as int == self.targets_per_level as int * (
                    self.package_relative_index as int - 1) + i + 1
                    &&& r@[i].targets_per_level == self.targets_per_level
                    &&& r@[i].max_depth == self.max_depth
                    &&& r@[i].parents@.len() == self.parents@.len() + 1
                    &&& r@[i]@.ancestors == seq![self@] + self@.ancestors
                    &&& addr_wf(r@[i]@)
                },
    {
        let mut result: Vec<ID> = Vec::new();
        if (self.parents.len() as u64) >= self.max_depth {
            return result;
        }
        let ghost k: nat = self.targets_per_level as nat;
        let ghost depth: nat = self.parents@.len() as nat;
        let ghost maxd: nat = self.max_depth as nat;
        proof {
            lemma_depth_interval(self.id as nat, k);
            lemma_pos_bounds(self.id as nat, k);
            lemma_geom_mono(k, depth, (maxd - 1) as nat);
            lemma_geom_step(k, maxd);
            lemma_npow_mono(k, depth + 1, maxd);
            lemma_npow_le_geom(k, maxd);
            // the last child's index still fits: id * k + k <= k * geom(k, maxd - 1)
            assert(self.id as int * k + k <= k as int * geom(k, (maxd - 1) as nat))
                by (nonlinear_arith)
                requires
                    k >= 2,
                    self.id as int <= geom(k, (maxd - 1) as nat) - 1,
            ;
            // the last child's rank still fits: k * (pos - 1) + k == k * pos <= k^(depth+1)
            assert(k as int * (self.package_relative_index as int - 1) + k <= npow(k, depth + 1))
                by (nonlinear_arith)
                requires
                    k >= 2,
                    self.package_relative_index as int <= npow(k, depth),
                    npow(k, depth + 1) == k * npow(k, depth),
            ;
            assert(npow(k, depth + 1) == k * npow(k, depth));
        }
        let own = copy_id(self);
        let mut chain: Vec<ID> = copy_ids(&self.parents);
        chain.insert(0, own);
        proof {
            lemma_view_ancestors(*self);
        }
        let mut i: u64 = 0;
        while i < self.targets_per_level
            invariant
                addr_wf(self@),
                i <= self.targets_per_level,
                k == self.targets_per_level as nat,
                depth == self.parents@.len() as nat,
                maxd == self.max_depth as nat,
                depth < maxd,
                self.id >= 1,
                self.id as int * k + k <= u64::MAX as int,
                self.package_relative_index as int >= 1,
                k as int * (self.package_relative_index as int - 1) + k <= u64::MAX as int,
                chain@.len() == depth + 1,
                id_view(chain@[0]) == self@,
                forall|j: int|
                    1 <= j < depth + 1 ==> #[trigger] id_view(chain@[j]) == self@.ancestors[j - 1],
                result@.len() == i,
                forall|t: int|
                    #![trigger result@[t]]
                    0 <= t < i ==> {
                        &&& result@[t].id as int == self.id as int * k + t + 1
                        &&& parent_of(result@[t].id as nat, k) == self.id
                        &&& result@[t].package_relative_index as int == k as int * (
                        self.package_relative_index as int - 1) + t + 1
                        &&& result@[t].targets_per_level == self.targets_per_level
                        &&& result@[t].max_depth == self.max_depth
                        &&& result@[t].parents@.len() == depth + 1
                        &&& result@[t]@.ancestors == seq![self@] + self@.ancestors
                        &&& addr_wf(result@[t]@)
                    },
            decreases self.targets_per_level - i,
        {
            let cid = self.id * self.targets_per_level + i + 1;
            let cpos = self.targets_per_level * (self.package_relative_index - 1) + i + 1;
            let cparents = copy_ids(&chain);
            let c = ID {
                id: cid,
                parents: cparents,
                package_relative_index: cpos,
                targets_per_level: self.targets_per_level,
                max_depth: self.max_depth,
            };
            proof {
                lemma_declared_slot_resolves(self.id as nat, k, i as nat);
                lemma_view_ancestors(c);
                assert forall|j: int| 0 <= j < c@.ancestors.len() implies c@.ancestors[j] == (
                seq![self@] + self@.ancestors)[j] by {
                    assert(id_view(c.parents@[j]) == id_view(chain@[j]));
                }
                assert(c@.ancestors =~= seq![self@] + self@.ancestors);
                assert(addr_wf(c@));
            }
            result.push(c);
            i = i + 1;
        }
        result
    }
}

/// Reconstructing a node from its index alone is deterministic: two
/// well-formed addresses that agree on index, branching factor and depth cap
/// agree on depth and rank — all that any derived path or name reads.
pub proof fn lemma_address_deterministic(a: Addr, b: Addr)
    requires
        addr_wf(a),
        addr_wf(b),
        a.index == b.index,
        a.branching == b.branching,
        a.height_cap == b.height_cap,
    ensures
        a.ancestors.len() == b.ancestors.len(),
        a.rank == b.rank,
{
}

/// Every dependency slot a node declares names the node that carries it: the
/// child index `id * k + i + 1` has the node itself as parent, sits one level
/// deeper, and carries rank `k * (rank - 1) + i + 1` — exactly the depth and
/// rank the declaration in slot `i` is built from.
pub proof fn lemma_declared_slot_resolves(id: nat, k: nat, i: nat)
    requires
        k >= 2,
        id >= 1,
        i < k,
    ensures
        parent_of(id * k + i + 1, k) == id,
        depth_of(id * k + i + 1, k) == depth_of(id, k) + 1,
        pos_of(id * k + i + 1, k) == k * (pos_of(id, k) - 1) + i + 1,
{
    let c = id * k + i + 1;
    vstd::arithmetic::div_mod::lemma_fundamental_div_mod_converse(
        (c - 1) as int,
        k as int,
        id as int,
        i as int,
    );
    assert(parent_of(c, k) == id);
    assert(depth_of(c, k) == 1 + depth_of(id, k));
    lemma_pos_step(c, k);
    lemma_pos_bounds(id, k);
    assert(((c - 1) as nat) % k == i);
}

} // verus!

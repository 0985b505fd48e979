//! The order in which branches are generated: every branch after the one it
//! continues, depth first, and siblings in ascending order.

use vstd::prelude::*;
use vstd::arithmetic::div_mod::{lemma_fundamental_div_mod, lemma_fundamental_div_mod_converse};
use crate::branch::{BranchModel, Turn};
use crate::chain::{chain_branch, chain_plan};
use crate::count::{lemma_fan_len, lemma_power_sum_increases, lemma_power_sum_unfolds, power_sum};
use crate::tree::{fan, subtree, tree_plan, spec_fan_turn};

verus! {

/// The index that a direction rule carries: the arm of an initial chain
/// link, the place of a branch within its fan, and zero for a branch
/// without siblings.
pub open spec fn slot_of(turn: Turn) -> int {
    match turn {
        Turn::Spoke { index, .. } => index as int,
        Turn::Fan { index, .. } => index as int,
        Turn::Drift => 0,
        Turn::Straight => 0,
    }
}

/// Every branch stands after the branch that it continues.
pub open spec fn parents_precede(plan: Seq<BranchModel>) -> bool {
    forall|j: int|
        0 <= j < plan.len() ==> match (#[trigger] plan[j]).parent {
            Some(p) => 0 <= p < j,
            None => true,
        }
}

/// Between a branch and any branch that continues it stand only branches
/// that grow out of the former: the traversal is depth first.
pub open spec fn depth_first(plan: Seq<BranchModel>) -> bool {
    forall|k: int, j: int|
        0 <= k < j < plan.len() ==> match (#[trigger] plan[j]).parent {
            Some(p) => p < k ==> match (#[trigger] plan[k]).parent {
                Some(q) => q >= p,
                None => false,
            },
            None => true,
        }
}

/// Branches that continue the same branch, or that all start at the origin,
/// stand in ascending order of their index.
pub open spec fn siblings_ascend(plan: Seq<BranchModel>) -> bool {
    forall|k: int, j: int|
        0 <= k < j < plan.len() && (#[trigger] plan[k]).parent == (#[trigger] plan[j]).parent
            ==> slot_of(plan[k].turn) < slot_of(plan[j].turn)
}

/// A branch at the origin has the full budget `depth`; every other branch
/// has one unit less than the branch that it continues; none has zero.
pub open spec fn budgets_descend(plan: Seq<BranchModel>, depth: nat) -> bool {
    forall|j: int|
        0 <= j < plan.len() ==> (#[trigger] plan[j]).depth_remaining >= 1 && match plan[j].parent {
            Some(p) => 0 <= p < plan.len() && plan[p].depth_remaining == plan[j].depth_remaining
                + 1,
            None => plan[j].depth_remaining == depth,
        }
}

/// No direction rule divides by zero.
pub open spec fn turns_well_formed(plan: Seq<BranchModel>) -> bool {
    forall|j: int| 0 <= j < plan.len() ==> (#[trigger] plan[j]).turn.well_formed()
}

/// The order in which both generators emit their branches, for a fractal
/// with budget `depth`.
pub open spec fn drawing_order(plan: Seq<BranchModel>, depth: nat) -> bool {
    &&& parents_precede(plan)
    &&& depth_first(plan)
    &&& siblings_ascend(plan)
    &&& budgets_descend(plan, depth)
    &&& turns_well_formed(plan)
}

/// What holds of entry `k` of a fan that starts at position `at`.
spec fn entry_laid_out(
    f: Seq<BranchModel>,
    arms: u32,
    depth: nat,
    parent: Option<int>,
    upto: nat,
    at: int,
    k: int,
) -> bool {
    let b = f[k];
    &&& 1 <= b.depth_remaining <= depth
    &&& 0 <= slot_of(b.turn) < arms
    &&& b.turn == spec_fan_turn(arms, slot_of(b.turn) as u32)
    &&& if b.depth_remaining == depth {
        b.parent == parent && slot_of(b.turn) < upto
    } else {
        match b.parent {
            Some(q) => at <= q < at + k && f[q - at].depth_remaining == b.depth_remaining + 1,
            None => false,
        }
    }
}

/// What holds of entries `k < j` of a fan that starts at position `at`.
spec fn pair_laid_out(f: Seq<BranchModel>, depth: nat, at: int, k: int, j: int) -> bool {
    &&& f[j].depth_remaining < depth ==> match f[j].parent {
        Some(p) => p - at < k ==> f[k].depth_remaining < depth && match f[k].parent {
            Some(q) => q >= p,
            None => false,
        },
        None => false,
    }
    &&& f[k].depth_remaining == depth && f[j].depth_remaining == depth ==> slot_of(f[k].turn)
        < slot_of(f[j].turn)
    &&& f[k].depth_remaining < depth && f[j].depth_remaining < depth && f[k].parent
        == f[j].parent ==> slot_of(f[k].turn) < slot_of(f[j].turn)
}

/// What holds of a fan that starts at position `at`.
spec fn laid_out(
    f: Seq<BranchModel>,
    arms: u32,
    depth: nat,
    parent: Option<int>,
    upto: nat,
    at: int,
) -> bool {
    &&& forall|k: int|
        0 <= k < f.len() ==> #[trigger] entry_laid_out(f, arms, depth, parent, upto, at, k)
    &&& forall|k: int, j: int|
        0 <= k < j < f.len() ==> #[trigger] pair_laid_out(f, depth, at, k, j)
}

proof fn lemma_fan_laid_out(arms: u32, depth: nat, parent: Option<int>, upto: nat, at: int)
    requires
        upto <= arms,
    ensures
        laid_out(fan(arms, depth, parent, upto, at), arms, depth, parent, upto, at),
    decreases depth, upto,
{
    let f = fan(arms, depth, parent, upto, at);
    if upto == 0 {
        assert(f.len() == 0);
    } else if depth == 0 {
        crate::tree::lemma_fan_without_depth(arms, parent, upto, at);
    } else {
        let before = fan(arms, depth, parent, (upto - 1) as nat, at);
        let b = before.len() as int;
        let here = at + b;
        let root = BranchModel {
            parent,
            turn: spec_fan_turn(arms, (upto - 1) as u32),
            depth_remaining: depth,
        };
        let inner = fan(arms, (depth - 1) as nat, Some(here), arms as nat, here + 1);
        lemma_fan_laid_out(arms, depth, parent, (upto - 1) as nat, at);
        lemma_fan_laid_out(arms, (depth - 1) as nat, Some(here), arms as nat, here + 1);
        assert(subtree(arms, root, here) == seq![root] + inner);
        assert(f == before + (seq![root] + inner));
        assert(f.len() == b + 1 + inner.len());
        assert(slot_of(root.turn) == upto - 1);
        assert forall|k: int| 0 <= k < f.len() implies #[trigger] entry_laid_out(
            f,
            arms,
            depth,
            parent,
            upto,
            at,
            k,
        ) by {
            if k < b {
                assert(f[k] == before[k]);
                assert(entry_laid_out(before, arms, depth, parent, (upto - 1) as nat, at, k));
                if before[k].depth_remaining != depth {
                    let q = before[k].parent->0;
                    assert(f[q - at] == before[q - at]);
                }
            } else if k == b {
                assert(f[k] == root);
            } else {
                let i = k - b - 1;
                assert(f[k] == inner[i]);
                assert(entry_laid_out(
                    inner,
                    arms,
                    (depth - 1) as nat,
                    Some(here),
                    arms as nat,
                    here + 1,
                    i,
                ));
                if inner[i].depth_remaining == depth - 1 {
                    assert(f[here - at] == root);
                } else {
                    let q = inner[i].parent->0;
                    assert(f[q - at] == inner[q - here - 1]);
                }
            }
        }
        assert forall|k: int, j: int| 0 <= k < j < f.len() implies #[trigger] pair_laid_out(
            f,
            depth,
            at,
            k,
            j,
        ) by {
            assert(entry_laid_out(f, arms, depth, parent, upto, at, k));
            assert(entry_laid_out(f, arms, depth, parent, upto, at, j));
            if j < b {
                assert(f[k] == before[k]);
                assert(f[j] == before[j]);
                assert(pair_laid_out(before, depth, at, k, j));
            } else if j == b {
                assert(f[j] == root);
                if k < b {
                    assert(f[k] == before[k]);
                    assert(entry_laid_out(before, arms, depth, parent, (upto - 1) as nat, at, k));
                }
            } else {
                let ji = j - b - 1;
                assert(f[j] == inner[ji]);
                assert(entry_laid_out(
                    inner,
                    arms,
                    (depth - 1) as nat,
                    Some(here),
                    arms as nat,
                    here + 1,
                    ji,
                ));
                if k < b {
                    assert(f[k] == before[k]);
                } else if k == b {
                    assert(f[k] == root);
                } else {
                    let ki = k - b - 1;
                    assert(f[k] == inner[ki]);
                    assert(entry_laid_out(
                        inner,
                        arms,
                        (depth - 1) as nat,
                        Some(here),
                        arms as nat,
                        here + 1,
                        ki,
                    ));
                    assert(pair_laid_out(inner, (depth - 1) as nat, here + 1, ki, ji));
                }
            }
        }
    }
}

/// A branching tree is generated depth first, siblings in ascending order,
/// every branch after the one it continues and with one unit of budget
/// less; and none of its direction rules divides by zero.
pub proof fn lemma_tree_plan_ordered(arms: u32, depth: u32)
    ensures
        drawing_order(tree_plan(arms, depth), depth as nat),
{
    let plan = tree_plan(arms, depth);
    lemma_fan_laid_out(arms, depth as nat, None, arms as nat, 0);
    assert forall|j: int| 0 <= j < plan.len() implies match (#[trigger] plan[j]).parent {
        Some(p) => 0 <= p < j,
        None => true,
    } by {
        assert(entry_laid_out(plan, arms, depth as nat, None, arms as nat, 0, j));
    }
    assert forall|j: int| 0 <= j < plan.len() implies (#[trigger] plan[j]).depth_remaining >= 1
        && match plan[j].parent {
        Some(p) => 0 <= p < plan.len() && plan[p].depth_remaining == plan[j].depth_remaining + 1,
        None => plan[j].depth_remaining == depth as nat,
    } by {
        assert(entry_laid_out(plan, arms, depth as nat, None, arms as nat, 0, j));
    }
    assert forall|j: int| 0 <= j < plan.len() implies (#[trigger] plan[j]).turn.well_formed() by {
        assert(entry_laid_out(plan, arms, depth as nat, None, arms as nat, 0, j));
    }
    assert forall|k: int, j: int| 0 <= k < j < plan.len() implies match (#[trigger] plan[j]).parent {
        Some(p) => p < k ==> match (#[trigger] plan[k]).parent {
            Some(q) => q >= p,
            None => false,
        },
        None => true,
    } by {
        assert(entry_laid_out(plan, arms, depth as nat, None, arms as nat, 0, j));
        assert(pair_laid_out(plan, depth as nat, 0, k, j));
    }
    assert forall|k: int, j: int|
        0 <= k < j < plan.len() && (#[trigger] plan[k]).parent == (
        #[trigger] plan[j]).parent implies slot_of(plan[k].turn) < slot_of(plan[j].turn) by {
        assert(entry_laid_out(plan, arms, depth as nat, None, arms as nat, 0, k));
        assert(entry_laid_out(plan, arms, depth as nat, None, arms as nat, 0, j));
        assert(pair_laid_out(plan, depth as nat, 0, k, j));
    }
}

/// A single-chain fractal is generated arm by arm in ascending order and
/// along each arm from its root outwards, every link directly after the
/// one it continues and with one unit of budget less; and none of its
/// direction rules divides by zero.
pub proof fn lemma_chain_plan_ordered(arms: u32, depth: u32)
    ensures
        drawing_order(chain_plan(arms, depth), depth as nat),
{
    let plan = chain_plan(arms, depth);
    let d = depth as int;
    if depth == 0 {
        assert(arms * depth == 0) by (nonlinear_arith)
            requires
                depth == 0,
        ;
    } else {
        assert forall|j: int| 0 <= j < plan.len() implies (#[trigger] plan[j]).depth_remaining >= 1
            && match plan[j].parent {
            Some(p) => 0 <= p < plan.len() && plan[p].depth_remaining == plan[j].depth_remaining
                + 1,
            None => plan[j].depth_remaining == depth as nat,
        } by {
            lemma_fundamental_div_mod(j, d);
            if j % d != 0 {
                lemma_fundamental_div_mod_converse(j - 1, d, j / d, j % d - 1);
                assert(plan[j - 1] == chain_branch(arms, depth, j - 1));
            }
        }
        assert forall|j: int| 0 <= j < plan.len() implies (#[trigger] plan[j]).turn.well_formed() by {
            lemma_fundamental_div_mod(j, d);
            let arm = j / d;
            assert(0 <= arm < arms) by (nonlinear_arith)
                requires
                    0 <= j < arms * d,
                    d > 0,
                    j == d * arm + j % d,
                    0 <= j % d < d,
            ;
        }
        assert forall|k: int, j: int|
            0 <= k < j < plan.len() && (#[trigger] plan[k]).parent == (
            #[trigger] plan[j]).parent implies slot_of(plan[k].turn) < slot_of(plan[j].turn) by {
            lemma_fundamental_div_mod(j, d);
            lemma_fundamental_div_mod(k, d);
            let aj = j / d;
            let ak = k / d;
            assert(0 <= ak < aj < arms) by (nonlinear_arith)
                requires
                    0 <= k < j < arms * d,
                    d > 0,
                    j == d * aj,
                    k == d * ak,
            ;
        }
    }
}

/// Number of branches in the subtree of a branch with budget `budget`.
pub open spec fn subtree_size(arms: u32, budget: nat) -> int {
    power_sum(arms as nat, budget)
}

/// Where child `slot` of the branch at position `j` stands, if that branch
/// has budget `budget`: behind the branch itself and the subtrees of the
/// children before it.
pub open spec fn child_position(arms: u32, j: int, budget: nat, slot: int) -> int {
    j + 1 + slot * subtree_size(arms, (budget - 1) as nat)
}

/// Where root branch `slot` stands: behind the subtrees of the roots before
/// it.
pub open spec fn root_position(arms: u32, depth: nat, slot: int) -> int {
    slot * subtree_size(arms, depth)
}

proof fn lemma_subtree_size_positive(arms: u32, budget: nat)
    requires
        budget >= 1,
    ensures
        subtree_size(arms, budget) >= 1,
{
    lemma_power_sum_unfolds(arms as nat, budget);
    lemma_power_sum_increases(arms as nat, 0, (budget - 1) as nat);
    assert(arms * power_sum(arms as nat, (budget - 1) as nat) >= 0) by (nonlinear_arith)
        requires
            power_sum(arms as nat, (budget - 1) as nat) >= 0,
    ;
}

proof fn lemma_slot_in_range(slot: int, upto: int, size: int)
    requires
        0 <= slot < upto,
        size >= 1,
    ensures
        0 <= slot * size,
        slot * size + size <= upto * size,
{
    assert(0 <= slot * size && slot * size + size <= upto * size) by (nonlinear_arith)
        requires
            0 <= slot < upto,
            size >= 1,
    ;
}

proof fn lemma_fan_tops(arms: u32, depth: nat, parent: Option<int>, upto: nat, at: int, slot: int)
    requires
        depth >= 1,
        0 <= slot < upto,
    ensures
        0 <= root_position(arms, depth, slot) < fan(arms, depth, parent, upto, at).len(),
        fan(arms, depth, parent, upto, at)[root_position(arms, depth, slot)] == (BranchModel {
            parent,
            turn: spec_fan_turn(arms, slot as u32),
            depth_remaining: depth,
        }),
    decreases upto,
{
    let f = fan(arms, depth, parent, upto, at);
    let before = fan(arms, depth, parent, (upto - 1) as nat, at);
    let size = subtree_size(arms, depth);
    let root = BranchModel {
        parent,
        turn: spec_fan_turn(arms, (upto - 1) as u32),
        depth_remaining: depth,
    };
    lemma_subtree_size_positive(arms, depth);
    lemma_fan_len(arms, depth, parent, upto, at);
    lemma_fan_len(arms, depth, parent, (upto - 1) as nat, at);
    lemma_slot_in_range(slot, upto as int, size);
    let rest = subtree(arms, root, at + before.len());
    assert(f == before + rest);
    if slot == upto - 1 {
        assert(rest[0] == root);
        assert(f[before.len() as int] == rest[0]);
    } else {
        lemma_fan_tops(arms, depth, parent, (upto - 1) as nat, at, slot);
        lemma_slot_in_range(slot, upto - 1, size);
        assert(f[root_position(arms, depth, slot)] == before[root_position(arms, depth, slot)]);
    }
}

proof fn lemma_fan_children(
    arms: u32,
    depth: nat,
    parent: Option<int>,
    upto: nat,
    at: int,
    k: int,
    slot: int,
)
    requires
        upto <= arms,
        0 <= k < fan(arms, depth, parent, upto, at).len(),
        fan(arms, depth, parent, upto, at)[k].depth_remaining >= 2,
        0 <= slot < arms,
    ensures
        ({
            let f = fan(arms, depth, parent, upto, at);
            let c = child_position(arms, k, f[k].depth_remaining, slot);
            &&& k < c < f.len()
            &&& f[c] == (BranchModel {
                parent: Some(at + k),
                turn: spec_fan_turn(arms, slot as u32),
                depth_remaining: (f[k].depth_remaining - 1) as nat,
            })
        }),
    decreases depth, upto,
{
    let f = fan(arms, depth, parent, upto, at);
    if depth == 0 {
        crate::tree::lemma_fan_without_depth(arms, parent, upto, at);
    } else {
        let before = fan(arms, depth, parent, (upto - 1) as nat, at);
        let b = before.len() as int;
        let here = at + b;
        let root = BranchModel {
            parent,
            turn: spec_fan_turn(arms, (upto - 1) as u32),
            depth_remaining: depth,
        };
        let inner = fan(arms, (depth - 1) as nat, Some(here), arms as nat, here + 1);
        assert(subtree(arms, root, here) == seq![root] + inner);
        assert(f == before + (seq![root] + inner));
        assert(f.len() == b + 1 + inner.len());
        let budget = f[k].depth_remaining;
        let size = subtree_size(arms, (budget - 1) as nat);
        lemma_subtree_size_positive(arms, (budget - 1) as nat);
        assert(slot * size >= 0) by (nonlinear_arith)
            requires
                slot >= 0,
                size >= 1,
        ;
        let c = child_position(arms, k, budget, slot);
        if k < b {
            assert(f[k] == before[k]);
            lemma_fan_children(arms, depth, parent, (upto - 1) as nat, at, k, slot);
            assert(f[c] == before[c]);
        } else if k == b {
            assert(f[k] == root);
            lemma_fan_tops(arms, (depth - 1) as nat, Some(here), arms as nat, here + 1, slot);
            let i = root_position(arms, (depth - 1) as nat, slot);
            assert(c == b + 1 + i);
            assert(f[c] == inner[i]);
        } else {
            let ki = k - b - 1;
            assert(f[k] == inner[ki]);
            lemma_fan_children(arms, (depth - 1) as nat, Some(here), arms as nat, here + 1, ki, slot);
            let ci = child_position(arms, ki, budget, slot);
            assert(c == b + 1 + ci);
            assert(f[c] == inner[ci]);
        }
    }
}

/// Every fan of a branching tree is complete at the root level: for each
/// `slot` below `arms` the root branch with that index stands behind the
/// subtrees of the roots before it.
pub proof fn lemma_tree_roots(arms: u32, depth: u32, slot: u32)
    requires
        depth >= 1,
        slot < arms,
    ensures
        0 <= root_position(arms, depth as nat, slot as int) < tree_plan(arms, depth).len(),
        tree_plan(arms, depth)[root_position(arms, depth as nat, slot as int)] == (BranchModel {
            parent: None,
            turn: spec_fan_turn(arms, slot),
            depth_remaining: depth as nat,
        }),
{
    lemma_fan_tops(arms, depth as nat, None, arms as nat, 0, slot as int);
}

/// Every branch with budget left spawns exactly one child per arm: child
/// `slot` of the branch at position `j` continues that branch with one unit
/// of budget less, and stands behind the subtrees of the children before
/// it.
pub proof fn lemma_tree_children(arms: u32, depth: u32, j: int, slot: u32)
    requires
        0 <= j < tree_plan(arms, depth).len(),
        tree_plan(arms, depth)[j].depth_remaining >= 2,
        slot < arms,
    ensures
        ({
            let plan = tree_plan(arms, depth);
            let c = child_position(arms, j, plan[j].depth_remaining, slot as int);
            &&& j < c < plan.len()
            &&& plan[c] == (BranchModel {
                parent: Some(j),
                turn: spec_fan_turn(arms, slot),
                depth_remaining: (plan[j].depth_remaining - 1) as nat,
            })
            &&& Some(plan[c]) == plan[j].step(j, spec_fan_turn(arms, slot))
        }),
{
    lemma_fan_children(arms, depth as nat, None, arms as nat, 0, j, slot as int);
}

/// Every link of a chain but the first of its arm is the step of the link
/// directly before it.
pub proof fn lemma_chain_links(arms: u32, depth: u32, j: int)
    requires
        0 <= j < chain_plan(arms, depth).len(),
        chain_plan(arms, depth)[j].parent is Some,
    ensures
        j >= 1,
        chain_plan(arms, depth)[j].parent == Some(j - 1),
        Some(chain_plan(arms, depth)[j]) == chain_plan(arms, depth)[j - 1].step(j - 1, Turn::Drift),
{
    let d = depth as int;
    if depth == 0 {
        assert(arms * depth == 0) by (nonlinear_arith)
            requires
                depth == 0,
        ;
    } else {
        lemma_fundamental_div_mod(j, d);
        lemma_fundamental_div_mod_converse(j - 1, d, j / d, j % d - 1);
        assert(chain_plan(arms, depth)[j - 1] == chain_branch(arms, depth, j - 1));
    }
}

/// A branch whose budget is used up once it is drawn has no children.
pub proof fn lemma_tree_leaves(arms: u32, depth: u32, j: int, k: int)
    requires
        0 <= j < tree_plan(arms, depth).len(),
        0 <= k < tree_plan(arms, depth).len(),
        tree_plan(arms, depth)[j].depth_remaining == 1,
    ensures
        tree_plan(arms, depth)[k].parent != Some(j),
{
    lemma_tree_plan_ordered(arms, depth);
}

} // verus!

//! The branching-tree generator: every branch with budget left spawns one
//! child per arm, fanned across the sweep.

use vstd::prelude::*;
use crate::branch::{Branch, BranchModel, Turn, models, lemma_models_push};
use crate::count::{lemma_tree_plan_len, power_sum, tree_size};
use crate::order::{drawing_order, lemma_tree_plan_ordered};

verus! {

/// Direction rule of child `slot` among `arms` siblings.
///
/// Two or more siblings divide the sweep into `arms - 1` equal gaps. A single
/// branch has no gap to divide by and keeps its base direction.
pub open spec fn spec_fan_turn(arms: u32, slot: u32) -> Turn {
    if arms <= 1 {
        Turn::Straight
    } else {
        Turn::Fan { index: slot, gaps: (arms - 1) as u32 }
    }
}

/// Direction rule of child `slot` among `arms` siblings.
#[verifier::when_used_as_spec(spec_fan_turn)]
pub fn fan_turn(arms: u32, slot: u32) -> (turn: Turn)
    ensures
        turn == spec_fan_turn(arms, slot),
{
    if arms <= 1 {
        Turn::Straight
    } else {
        Turn::Fan { index: slot, gaps: arms - 1 }
    }
}

/// The branch `root`, standing at position `at`, followed by everything
/// that grows out of it, depth first.
pub open spec fn subtree(arms: u32, root: BranchModel, at: int) -> Seq<BranchModel>
    decreases root.depth_remaining, 0nat,
{
    if root.depth_remaining == 0 {
        Seq::empty()
    } else {
        seq![root] + fan(
            arms,
            (root.depth_remaining - 1) as nat,
            Some(at),
            arms as nat,
            at + 1,
        )
    }
}

/// The first `upto` of the `arms` sibling subtrees that continue `parent`,
/// in ascending order, each with budget `depth`; the first of them starts
/// at position `at`.
pub open spec fn fan(arms: u32, depth: nat, parent: Option<int>, upto: nat, at: int) -> Seq<
    BranchModel,
>
    decreases depth, upto + 1,
{
    if upto == 0 {
        Seq::empty()
    } else {
        let before = fan(arms, depth, parent, (upto - 1) as nat, at);
        before + subtree(
            arms,
            BranchModel {
                parent,
                turn: spec_fan_turn(arms, (upto - 1) as u32),
                depth_remaining: depth,
            },
            at + before.len(),
        )
    }
}

/// All branches of a branching tree in drawing order. The root level is
/// itself a fan of `arms` branches without a parent.
pub open spec fn tree_plan(arms: u32, depth: u32) -> Seq<BranchModel> {
    fan(arms, depth as nat, None, arms as nat, 0)
}

/// A fan without budget is empty.
pub(crate) proof fn lemma_fan_without_depth(arms: u32, parent: Option<int>, upto: nat, at: int)
    ensures
        fan(arms, 0, parent, upto, at) == Seq::<BranchModel>::empty(),
    decreases upto,
{
    if upto > 0 {
        lemma_fan_without_depth(arms, parent, (upto - 1) as nat, at);
        let last = BranchModel {
            parent,
            turn: spec_fan_turn(arms, (upto - 1) as u32),
            depth_remaining: 0,
        };
        assert(subtree(arms, last, at) == Seq::<BranchModel>::empty());
        assert(fan(arms, 0, parent, upto, at) =~= Seq::<BranchModel>::empty());
    }
}

/// The branches of a tree whose fans hold a single branch: `depth` branches
/// in a row, each continuing the one before in the same direction.
pub open spec fn straight_chain(depth: nat, parent: Option<int>, at: int) -> Seq<BranchModel> {
    Seq::new(
        depth,
        |k: int|
            BranchModel {
                parent: if k == 0 {
                    parent
                } else {
                    Some(at + k - 1)
                },
                turn: Turn::Straight,
                depth_remaining: (depth - k) as nat,
            },
    )
}

proof fn lemma_single_arm_subtree(depth: nat, parent: Option<int>, at: int)
    ensures
        subtree(1, BranchModel { parent, turn: Turn::Straight, depth_remaining: depth }, at)
            == straight_chain(depth, parent, at),
    decreases depth,
{
    let root = BranchModel { parent, turn: Turn::Straight, depth_remaining: depth };
    if depth == 0 {
        assert(subtree(1, root, at) =~= straight_chain(depth, parent, at));
    } else {
        let below = (depth - 1) as nat;
        let child = BranchModel { parent: Some(at), turn: Turn::Straight, depth_remaining: below };
        lemma_single_arm_subtree(below, Some(at), at + 1);
        assert(fan(1, below, Some(at), 0, at + 1) == Seq::<BranchModel>::empty());
        assert(fan(1, below, Some(at), 1, at + 1) =~= subtree(1, child, at + 1));
        assert(subtree(1, root, at) =~= straight_chain(depth, parent, at));
    }
}

/// With a single branch per fan the tree is one straight chain of `depth`
/// branches, and no direction rule has a fan to divide.
pub proof fn lemma_single_arm_tree(depth: u32)
    ensures
        tree_plan(1, depth) == straight_chain(depth as nat, None, 0),
        tree_plan(1, depth).len() == depth,
{
    let root = BranchModel { parent: None, turn: Turn::Straight, depth_remaining: depth as nat };
    lemma_single_arm_subtree(depth as nat, None, 0);
    assert(fan(1, depth as nat, None, 0, 0) == Seq::<BranchModel>::empty());
    assert(tree_plan(1, depth) =~= subtree(1, root, 0));
}

/// Appends to `out` the `arms` sibling subtrees that continue `parent`,
/// each with budget `depth`.
fn grow_fan(arms: u32, depth: u32, parent: Option<usize>, out: &mut Vec<Branch>)
    ensures
        models(final(out)@) == models(old(out)@) + fan(
            arms,
            depth as nat,
            match parent {
                Some(p) => Some(p as int),
                None => None,
            },
            arms as nat,
            old(out)@.len() as int,
        ),
    decreases depth,
{
    let ghost before = out@;
    let ghost parent_model: Option<int> = match parent {
        Some(p) => Some(p as int),
        None => None,
    };
    if depth == 0 {
        proof {
            lemma_fan_without_depth(arms, parent_model, arms as nat, before.len() as int);
            assert(models(out@) =~= models(before) + Seq::<BranchModel>::empty());
        }
        return ;
    }
    let mut slot: u32 = 0;
    proof {
        assert(models(out@) =~= models(before) + fan(
            arms,
            depth as nat,
            parent_model,
            0,
            before.len() as int,
        ));
    }
    while slot < arms
        invariant
            depth >= 1,
            slot <= arms,
            parent_model == match parent {
                Some(p) => Some(p as int),
                None => None,
            },
            models(out@) == models(before) + fan(
                arms,
                depth as nat,
                parent_model,
                slot as nat,
                before.len() as int,
            ),
        decreases arms - slot,
    {
        let at = out.len();
        let root = Branch { parent, turn: fan_turn(arms, slot), depth_remaining: depth };
        let ghost so_far = fan(arms, depth as nat, parent_model, slot as nat, before.len() as int);
        proof {
            lemma_models_push(out@, root);
            assert(models(out@).len() == out@.len());
            assert(models(before).len() == before.len());
            assert(at == before.len() + so_far.len());
        }
        out.push(root);
        let ghost pushed = out@;
        grow_fan(arms, depth - 1, Some(at), out);
        slot = slot + 1;
        proof {
            let below = fan(arms, (depth - 1) as nat, Some(at as int), arms as nat, at + 1);
            assert(models(out@) == models(pushed) + below);
            assert(subtree(arms, root@, at as int) == seq![root@] + below);
            assert(models(out@) =~= models(before) + (so_far + subtree(arms, root@, at as int)));
        }
    }
}

/// Appends to `out`, which is empty, the branches of a tree whose fans hold
/// a single branch, without recursion.
fn grow_straight(depth: u32, out: &mut Vec<Branch>)
    requires
        old(out)@.len() == 0,
    ensures
        models(final(out)@) == straight_chain(depth as nat, None, 0),
{
    let mut level: u32 = 0;
    while level < depth
        invariant
            level <= depth,
            out@.len() == level,
            models(out@) == straight_chain(depth as nat, None, 0).take(level as int),
        decreases depth - level,
    {
        let parent = if level == 0 {
            None
        } else {
            Some(out.len() - 1)
        };
        let branch = Branch { parent, turn: Turn::Straight, depth_remaining: depth - level };
        proof {
            lemma_models_push(out@, branch);
        }
        out.push(branch);
        level = level + 1;
        assert(models(out@) =~= straight_chain(depth as nat, None, 0).take(level as int));
    }
    assert(models(out@) =~= straight_chain(depth as nat, None, 0));
}

/// Generates the branches of a branching tree with `arms` branches per fan
/// and a budget of `depth` levels: depth first, and within each fan in
/// ascending order.
pub fn tree_branches(arms: u32, depth: u32) -> (out: Vec<Branch>)
    ensures
        models(out@) == tree_plan(arms, depth),
        out@.len() == tree_size(arms, depth),
        arms == 0 || depth == 0 ==> out@.len() == 0,
        arms == 1 ==> out@.len() == depth,
        drawing_order(models(out@), depth as nat),
{
    let mut out: Vec<Branch> = Vec::new();
    proof {
        assert(models(out@) =~= Seq::<BranchModel>::empty());
        lemma_single_arm_tree(depth);
        lemma_tree_plan_ordered(arms, depth);
    }
    if arms == 1 {
        grow_straight(depth, &mut out);
    } else {
        grow_fan(arms, depth, None, &mut out);
        assert(models(out@) =~= tree_plan(arms, depth));
    }
    proof {
        lemma_tree_plan_len(arms, depth);
        assert(models(out@).len() == out@.len());
        if arms == 0 {
            assert(0 * power_sum(0, depth as nat) == 0);
        }
        if depth == 0 {
            assert(arms * power_sum(arms as nat, 0) == 0);
        }
    }
    out
}

} // verus!

//! How many branches a fractal has, as closed forms and as checked
//! computations.

use vstd::prelude::*;
use vstd::arithmetic::power::{pow, lemma_pow_positive, lemma0_pow};
use crate::branch::BranchModel;
use crate::chain::chain_plan;
use crate::tree::{fan, subtree, tree_plan, spec_fan_turn};

verus! {

/// The sum of the first `terms` powers of `base`:
/// `base^0 + base^1 + ... + base^(terms - 1)`.
pub open spec fn power_sum(base: nat, terms: nat) -> int
    decreases terms,
{
    if terms == 0 {
        0
    } else {
        power_sum(base, (terms - 1) as nat) + pow(base as int, (terms - 1) as nat)
    }
}

/// Number of branches of a single-chain fractal.
pub open spec fn chain_size(arms: u32, depth: u32) -> int {
    arms * depth
}

/// Number of branches of a branching tree: each of the `arms` root branches
/// carries one branch at its own level, `arms` at the next, and so on for
/// `depth` levels.
pub open spec fn tree_size(arms: u32, depth: u32) -> int {
    arms * power_sum(arms as nat, depth as nat)
}

/// No power of a natural number is negative.
pub(crate) proof fn lemma_pow_nonnegative(base: nat, exponent: nat)
    ensures
        pow(base as int, exponent) >= 0,
{
    if base == 0 {
        if exponent > 0 {
            lemma0_pow(exponent);
        } else {
            assert(pow(0, 0) == 1) by {
                reveal_with_fuel(pow, 1);
            }
        }
    } else {
        lemma_pow_positive(base as int, exponent);
    }
}

/// A power sum never shrinks when terms are added, and is never negative.
pub proof fn lemma_power_sum_increases(base: nat, few: nat, many: nat)
    requires
        few <= many,
    ensures
        0 <= power_sum(base, few) <= power_sum(base, many),
    decreases many,
{
    if many == 0 {
    } else if few == many {
        lemma_power_sum_increases(base, (few - 1) as nat, (many - 1) as nat);
        lemma_pow_nonnegative(base, (many - 1) as nat);
    } else {
        lemma_power_sum_increases(base, few, (many - 1) as nat);
        lemma_pow_nonnegative(base, (many - 1) as nat);
    }
}

/// A power sum with at least one term is one more than `base` times the
/// sum with one term fewer.
pub proof fn lemma_power_sum_unfolds(base: nat, terms: nat)
    requires
        terms >= 1,
    ensures
        power_sum(base, terms) == 1 + base * power_sum(base, (terms - 1) as nat),
    decreases terms,
{
    if terms == 1 {
        assert(power_sum(base, 0) == 0);
        assert(pow(base as int, 0) == 1) by {
            reveal_with_fuel(pow, 1);
        }
        assert(power_sum(base, 1) == power_sum(base, 0) + pow(base as int, 0));
    } else {
        let shorter = power_sum(base, (terms - 2) as nat);
        let top = pow(base as int, (terms - 2) as nat);
        lemma_power_sum_unfolds(base, (terms - 1) as nat);
        assert(power_sum(base, (terms - 1) as nat) == shorter + top);
        assert(pow(base as int, (terms - 1) as nat) == base * top) by {
            reveal_with_fuel(pow, 1);
        }
        assert(base * (shorter + top) == base * shorter + base * top) by (nonlinear_arith);
    }
}

/// The closed form of the geometric series:
/// `(base - 1) * (base^0 + ... + base^(terms - 1)) == base^terms - 1`.
pub proof fn lemma_power_sum_closed_form(base: nat, terms: nat)
    ensures
        (base - 1) * power_sum(base, terms) == pow(base as int, terms) - 1,
    decreases terms,
{
    if terms == 0 {
        assert(pow(base as int, 0) == 1) by {
            reveal_with_fuel(pow, 1);
        }
        assert((base - 1) * 0 == 0);
    } else {
        let shorter = power_sum(base, (terms - 1) as nat);
        let top = pow(base as int, (terms - 1) as nat);
        lemma_power_sum_closed_form(base, (terms - 1) as nat);
        assert(pow(base as int, terms) == base * top) by {
            reveal_with_fuel(pow, 1);
        }
        assert((base - 1) * (shorter + top) == (base - 1) * shorter + base * top - top)
            by (nonlinear_arith);
    }
}

/// With base one, every term is one.
pub proof fn lemma_power_sum_of_one(terms: nat)
    ensures
        power_sum(1, terms) == terms,
    decreases terms,
{
    if terms > 0 {
        lemma_power_sum_of_one((terms - 1) as nat);
        vstd::arithmetic::power::lemma1_pow((terms - 1) as nat);
    }
}

/// A single-chain fractal has `arms * depth` branches.
pub proof fn lemma_chain_plan_len(arms: u32, depth: u32)
    ensures
        chain_plan(arms, depth).len() == chain_size(arms, depth),
{
    assert(arms * depth >= 0) by (nonlinear_arith);
}

/// A fan of `upto` sibling subtrees with budget `depth` holds `upto` times
/// the first `depth` powers of `arms`.
pub proof fn lemma_fan_len(arms: u32, depth: nat, parent: Option<int>, upto: nat, at: int)
    ensures
        fan(arms, depth, parent, upto, at).len() == upto * power_sum(arms as nat, depth),
    decreases depth, upto,
{
    if upto == 0 {
        assert(0 * power_sum(arms as nat, depth) == 0);
    } else {
        let before = fan(arms, depth, parent, (upto - 1) as nat, at);
        let root = BranchModel {
            parent,
            turn: spec_fan_turn(arms, (upto - 1) as u32),
            depth_remaining: depth,
        };
        let here = at + before.len();
        lemma_fan_len(arms, depth, parent, (upto - 1) as nat, at);
        let each = power_sum(arms as nat, depth);
        if depth == 0 {
            assert(subtree(arms, root, here).len() == 0);
        } else {
            lemma_fan_len(arms, (depth - 1) as nat, Some(here), arms as nat, here + 1);
            lemma_power_sum_unfolds(arms as nat, depth);
            assert(subtree(arms, root, here).len() == each);
        }
        assert(upto * each == (upto - 1) * each + each) by (nonlinear_arith);
    }
}

/// A branching tree has `arms * (arms^0 + ... + arms^(depth - 1))` branches.
pub proof fn lemma_tree_plan_len(arms: u32, depth: u32)
    ensures
        tree_plan(arms, depth).len() == tree_size(arms, depth),
{
    lemma_fan_len(arms, depth as nat, None, arms as nat, 0);
}

/// The closed form of the size of a branching tree:
/// `(arms - 1) * size == arms * (arms^depth - 1)`.
pub proof fn lemma_tree_size_closed_form(arms: u32, depth: u32)
    ensures
        (arms - 1) * tree_size(arms, depth) == arms * (pow(arms as int, depth as nat) - 1),
{
    let sum = power_sum(arms as nat, depth as nat);
    let top = pow(arms as int, depth as nat);
    lemma_power_sum_closed_form(arms as nat, depth as nat);
    assert((arms - 1) * (arms * sum) == arms * (top - 1)) by (nonlinear_arith)
        requires
            (arms - 1) * sum == top - 1,
    ;
}

/// Without depth, and likewise without arms, neither variant has any
/// branch.
pub proof fn lemma_nothing_to_draw(arms: u32, depth: u32)
    requires
        arms == 0 || depth == 0,
    ensures
        chain_plan(arms, depth).len() == 0,
        tree_plan(arms, depth).len() == 0,
{
    lemma_chain_plan_len(arms, depth);
    lemma_tree_plan_len(arms, depth);
    assert(arms * depth == 0) by (nonlinear_arith)
        requires
            arms == 0 || depth == 0,
    ;
    if depth == 0 {
        assert(arms * power_sum(arms as nat, 0) == 0);
    } else {
        assert(0 * power_sum(0, depth as nat) == 0);
    }
}

/// Number of branches of a single-chain fractal, if a sequence can be
/// that long on this machine.
pub fn chain_segment_count(arms: u32, depth: u32) -> (count: Option<usize>)
    ensures
        match count {
            Some(n) => n == chain_size(arms, depth),
            None => chain_size(arms, depth) > usize::MAX,
        },
{
    assert(arms * depth <= u64::MAX) by (nonlinear_arith)
        requires
            arms <= u32::MAX,
            depth <= u32::MAX,
    ;
    let total: u64 = (arms as u64) * (depth as u64);
    if total <= usize::MAX as u64 {
        Some(total as usize)
    } else {
        None
    }
}

/// Number of branches of a branching tree, if a sequence can be that long
/// on this machine.
pub fn tree_segment_count(arms: u32, depth: u32) -> (count: Option<usize>)
    ensures
        match count {
            Some(n) => n == tree_size(arms, depth),
            None => tree_size(arms, depth) > usize::MAX,
        },
{
    if arms == 0 {
        assert(0 * power_sum(0, depth as nat) == 0);
        return Some(0);
    }
    if arms == 1 {
        proof {
            lemma_power_sum_of_one(depth as nat);
        }
        return Some(depth as usize);
    }
    let mut total: usize = 0;
    let mut level: u32 = 0;
    while level < depth
        invariant
            arms >= 2,
            level <= depth,
            total == arms * power_sum(arms as nat, level as nat),
        decreases depth - level,
    {
        proof {
            lemma_power_sum_unfolds(arms as nat, (level + 1) as nat);
            lemma_power_sum_increases(arms as nat, (level + 1) as nat, depth as nat);
            let here = power_sum(arms as nat, level as nat);
            let next = power_sum(arms as nat, (level + 1) as nat);
            let last = power_sum(arms as nat, depth as nat);
            assert(arms * next == arms * (1 + total)) by (nonlinear_arith)
                requires
                    next == 1 + arms * here,
                    total == arms * here,
            ;
            assert(arms * next <= arms * last) by (nonlinear_arith)
                requires
                    next <= last,
                    arms >= 0,
            ;
        }
        let grown = match total.checked_add(1) {
            Some(g) => g,
            None => {
                assert(arms * (1 + total) > usize::MAX) by (nonlinear_arith)
                    requires
                        arms >= 2,
                        1 + total > usize::MAX,
                ;
                return None;
            },
        };
        assert(grown * arms == arms * (1 + total)) by (nonlinear_arith)
            requires
                grown == 1 + total,
        ;
        total = match grown.checked_mul(arms as usize) {
            Some(t) => t,
            None => {
                return None;
            },
        };
        level = level + 1;
    }
    Some(total)
}

} // verus!

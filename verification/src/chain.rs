//! The single-chain generator: one unbranched chain of links per arm.

use vstd::prelude::*;
use vstd::arithmetic::div_mod::lemma_fundamental_div_mod_converse;
use crate::branch::{Branch, BranchModel, Turn, models, lemma_models_push};
use crate::order::{drawing_order, lemma_chain_plan_ordered};

verus! {

/// The branch at position `n` of a single-chain fractal: link `n % depth`
/// of arm `n / depth`.
pub open spec fn chain_branch(arms: u32, depth: u32, n: int) -> BranchModel {
    let arm = n / (depth as int);
    let link = n % (depth as int);
    BranchModel {
        parent: if link == 0 { None } else { Some(n - 1) },
        turn: if link == 0 {
            Turn::Spoke { index: (arm + 1) as u32, arms }
        } else {
            Turn::Drift
        },
        depth_remaining: (depth - link) as nat,
    }
}

/// All branches of a single-chain fractal in drawing order: arm by arm, and
/// along each arm from its root outwards.
pub open spec fn chain_plan(arms: u32, depth: u32) -> Seq<BranchModel> {
    Seq::new((arms * depth) as nat, |n: int| chain_branch(arms, depth, n))
}

/// Generates the branches of a single-chain fractal with `arms` arms of
/// `depth` links each.
pub fn chain_branches(arms: u32, depth: u32) -> (out: Vec<Branch>)
    ensures
        models(out@) == chain_plan(arms, depth),
        out@.len() == arms * depth,
        arms == 0 || depth == 0 ==> out@.len() == 0,
        drawing_order(models(out@), depth as nat),
{
    let mut out: Vec<Branch> = Vec::new();
    proof {
        lemma_chain_plan_ordered(arms, depth);
    }
    if depth == 0 {
        assert(arms * depth == 0) by (nonlinear_arith)
            requires
                depth == 0,
        ;
        assert(models(out@) =~= chain_plan(arms, depth));
        return out;
    }
    let mut arm: u32 = 0;
    while arm < arms
        invariant
            depth >= 1,
            arm <= arms,
            out@.len() == arm * depth,
            models(out@) == Seq::new((arm * depth) as nat, |n: int| chain_branch(arms, depth, n)),
        decreases arms - arm,
    {
        let mut current: Option<Branch> = Some(
            Branch { parent: None, turn: Turn::Spoke { index: arm + 1, arms }, depth_remaining: depth },
        );
        let mut link: u32 = 0;
        proof {
            lemma_fundamental_div_mod_converse(arm * depth, depth as int, arm as int, 0);
        }
        while current.is_some()
            invariant
                depth >= 1,
                arm < arms,
                link <= depth,
                current is Some <==> link < depth,
                current matches Some(b) ==> b@ == chain_branch(arms, depth, arm * depth + link),
                out@.len() == arm * depth + link,
                models(out@) == Seq::new(
                    (arm * depth + link) as nat,
                    |n: int| chain_branch(arms, depth, n),
                ),
            decreases depth - link,
        {
            let branch = current.unwrap();
            let at = out.len();
            proof {
                lemma_models_push(out@, branch);
                lemma_fundamental_div_mod_converse(
                    arm * depth + link,
                    depth as int,
                    arm as int,
                    link as int,
                );
                if link + 1 < depth {
                    lemma_fundamental_div_mod_converse(
                        arm * depth + link + 1,
                        depth as int,
                        arm as int,
                        link + 1,
                    );
                }
            }
            out.push(branch);
            current = branch.step(at, Turn::Drift);
            link = link + 1;
            assert(models(out@) =~= Seq::new(
                (arm * depth + link) as nat,
                |n: int| chain_branch(arms, depth, n),
            ));
        }
        arm = arm + 1;
        assert(arm * depth == (arm - 1) * depth + depth) by (nonlinear_arith);
    }
    out
}

} // verus!

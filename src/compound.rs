use vstd::prelude::*;
use crate::error::VaultError;
use crate::math::{effective_assets, effective_supply, lemma_pow10_positive};
use crate::pool::{amount_at, PoolSnapshot};
use crate::accounting::asset_value;
use crate::vault::BlendVaultContract;
use vstd::arithmetic::div_mod::lemma_div_is_ordered;

verus! {

/// The record of a harvest that reached the pool: reward claimed, underlying received.
#[derive(Clone, Copy, Debug, PartialEq, Eq, Structural)]
pub struct CompoundEvent {
    pub blnd_claimed: i128,
    pub usdc_received: i128,
}

/// Where a harvest stands: claiming rewards, swapping them, resupplying the proceeds, done.
#[derive(Clone, Copy, Debug, PartialEq, Eq, Structural)]
pub enum CompoundStage {
    Claiming,
    Swapping { claimed: i128 },
    Redepositing { claimed: i128, received: i128 },
    Done { compounded: i128 },
}

/// The next thing the caller does for a harvest, then reports back with `compound_step`.
#[derive(Clone, Copy, Debug, PartialEq, Eq, Structural)]
pub enum CompoundAction {
    /// Claim the reward emissions of reserve `reserve_index` into the vault; report the
    /// amount claimed.
    Claim { reserve_index: u32 },
    /// Allow the exchange to take `amount_in` reward tokens and swap exactly that many for
    /// the underlying asset, accepting any output of at least `min_amount_out` at any price
    /// up to `max_price`; report the amount received.
    Swap { amount_in: i128, min_amount_out: i128, max_price: i128 },
    /// Allow the lending pool to take `amount` of the underlying asset and supply it to the
    /// vault's own position; no shares are minted.
    Supply { amount: i128 },
    /// The harvest is over: `compounded` units were resupplied, and `event` records it.
    Finish { compounded: i128, event: Option<CompoundEvent> },
}

/// The end of a harvest that compounded nothing.
pub open spec fn nothing_compounded() -> (CompoundStage, CompoundAction) {
    (
        CompoundStage::Done { compounded: 0 },
        CompoundAction::Finish { compounded: 0, event: None },
    )
}

/// The step a harvest takes from `stage` once the last action reported `outcome`: the
/// amount claimed while claiming, the amount received while swapping; it is ignored once
/// the proceeds were resupplied.
pub open spec fn compound_transition(stage: CompoundStage, outcome: i128) -> (
    CompoundStage,
    CompoundAction,
) {
    match stage {
        CompoundStage::Claiming => if outcome <= 0 {
            nothing_compounded()
        } else {
            (
                CompoundStage::Swapping { claimed: outcome },
                CompoundAction::Swap { amount_in: outcome, min_amount_out: 0, max_price: i128::MAX },
            )
        },
        CompoundStage::Swapping { claimed } => if outcome <= 0 {
            nothing_compounded()
        } else {
            (
                CompoundStage::Redepositing { claimed, received: outcome },
                CompoundAction::Supply { amount: outcome },
            )
        },
        CompoundStage::Redepositing { claimed, received } => (
            CompoundStage::Done { compounded: received },
            CompoundAction::Finish {
                compounded: received,
                event: Some(CompoundEvent { blnd_claimed: claimed, usdc_received: received }),
            },
        ),
        CompoundStage::Done { compounded } => (
            CompoundStage::Done { compounded },
            CompoundAction::Finish { compounded, event: None },
        ),
    }
}

/// What a whole harvest compounds when the claim yields `claimed` and the swap `received`.
pub open spec fn harvest_amount(claimed: i128, received: i128) -> i128 {
    let (s1, _) = compound_transition(CompoundStage::Claiming, claimed);
    let (s2, _) = compound_transition(s1, received);
    let (s3, _) = compound_transition(s2, 0);
    match s3 {
        CompoundStage::Done { compounded } => compounded,
        _ => 0,
    }
}

impl BlendVaultContract {
    /// Starts a harvest of the reward emissions: the first action claims them for the
    /// configured reward reserve. The vault's shares and registry are never touched by a
    /// harvest; only its position in the pool grows.
    pub fn compound(&self) -> (r: Result<(CompoundStage, CompoundAction), VaultError>)
        ensures
            match self.configuration() {
                Some(c) => r == Ok::<(CompoundStage, CompoundAction), VaultError>(
                    (
                        CompoundStage::Claiming,
                        CompoundAction::Claim { reserve_index: c.blnd_reserve_index },
                    ),
                ),
                None => r == Err::<(CompoundStage, CompoundAction), VaultError>(
                    VaultError::NotInitialized,
                ),
            },
    {
        match self.get_blnd_reserve_index() {
            Ok(index) => Ok((CompoundStage::Claiming, CompoundAction::Claim { reserve_index: index })),
            Err(err) => Err(err),
        }
    }
}

/// Advances a harvest once the last action reported `outcome`.
///
/// A claim of zero or less, or a swap that yields zero or less, ends the harvest with
/// nothing compounded; that is no error. A positive claim is swapped whole, with no
/// minimum output and no price cap; a positive output is resupplied whole.
pub fn compound_step(stage: CompoundStage, outcome: i128) -> (r: (CompoundStage, CompoundAction))
    ensures
        r == compound_transition(stage, outcome),
{
    match stage {
        CompoundStage::Claiming => {
            if outcome <= 0 {
                (
                    CompoundStage::Done { compounded: 0 },
                    CompoundAction::Finish { compounded: 0, event: None },
                )
            } else {
                (
                    CompoundStage::Swapping { claimed: outcome },
                    CompoundAction::Swap {
                        amount_in: outcome,
                        min_amount_out: 0,
                        max_price: i128::MAX,
                    },
                )
            }
        },
        CompoundStage::Swapping { claimed } => {
            if outcome <= 0 {
                (
                    CompoundStage::Done { compounded: 0 },
                    CompoundAction::Finish { compounded: 0, event: None },
                )
            } else {
                (
                    CompoundStage::Redepositing { claimed, received: outcome },
                    CompoundAction::Supply { amount: outcome },
                )
            }
        },
        CompoundStage::Redepositing { claimed, received } => (
            CompoundStage::Done { compounded: received },
            CompoundAction::Finish {
                compounded: received,
                event: Some(CompoundEvent { blnd_claimed: claimed, usdc_received: received }),
            },
        ),
        CompoundStage::Done { compounded } => (
            CompoundStage::Done { compounded },
            CompoundAction::Finish { compounded, event: None },
        ),
    }
}

/// A harvest whose claim yields nothing ends at once with zero compounded: no swap and no
/// supply are asked for, and (as `compound` reads the vault only) supply, balances and the
/// registry stay as they were.
pub proof fn lemma_no_reward_compounds_nothing(claimed: i128, received: i128)
    requires
        claimed <= 0,
    ensures
        compound_transition(CompoundStage::Claiming, claimed) == nothing_compounded(),
        harvest_amount(claimed, received) == 0,
{
}

/// A harvest compounds exactly the swap output when both the claim and the swap yield
/// something, and nothing otherwise.
pub proof fn lemma_harvest_amount(claimed: i128, received: i128)
    ensures
        harvest_amount(claimed, received) == (if claimed > 0 && received > 0 {
            received
        } else {
            0
        }),
{
}

/// After a harvest that compounded something, the pool holds at least the collateral it
/// held before at a rate no lower, while the share supply is unchanged. So the vault's
/// managed assets do not fall, and neither does the asset value of any share amount: the
/// assets-per-share ratio is non-decreasing.
pub proof fn lemma_compound_keeps_share_value(
    vault: BlendVaultContract,
    before: PoolSnapshot,
    after: PoolSnapshot,
    shares: int,
)
    requires
        vault.wf(),
        vault.initialized(),
        vault.assets_in(before) is Ok,
        vault.assets_in(after) is Ok,
        ({
            let index = vault.configuration()->Some_0.usdc_reserve_index;
            &&& 0 <= amount_at(before.positions.collateral@, index) <= amount_at(
                after.positions.collateral@,
                index,
            )
            &&& 0 <= before.reserve.b_rate <= after.reserve.b_rate
        }),
        shares >= 0,
    ensures
        ({
            let t0 = vault.assets_in(before)->Ok_0 as int;
            let t1 = vault.assets_in(after)->Ok_0 as int;
            &&& t0 <= t1
            &&& asset_value(shares, vault.supply(), t0, vault.offset()) <= asset_value(
                shares,
                vault.supply(),
                t1,
                vault.offset(),
            )
        }),
{
    let index = vault.configuration()->Some_0.usdc_reserve_index;
    let c0 = amount_at(before.positions.collateral@, index);
    let c1 = amount_at(after.positions.collateral@, index);
    let b0 = before.reserve.b_rate as int;
    let b1 = after.reserve.b_rate as int;
    let t0 = vault.assets_in(before)->Ok_0 as int;
    let t1 = vault.assets_in(after)->Ok_0 as int;
    assert(c0 * b0 <= c1 * b1) by (nonlinear_arith)
        requires
            0 <= c0 <= c1,
            0 <= b0 <= b1,
    ;
    assert(c0 * b0 >= 0) by (nonlinear_arith)
        requires
            0 <= c0,
            0 <= b0,
    ;
    if c0 != 0 {
        lemma_div_is_ordered(c0 * b0, c1 * b1, crate::pool::BLEND_RATE_SCALAR as int);
    } else {
        assert(t0 == 0);
        if c1 != 0 {
            assert(c1 * b1 >= 0);
            lemma_div_is_ordered(0, c1 * b1, crate::pool::BLEND_RATE_SCALAR as int);
        }
    }
    assert(t0 <= t1);
    crate::ledger::lemma_balance_bounded(vault.shares()@, Seq::empty());
    lemma_pow10_positive(vault.offset() as nat);
    let es = effective_supply(vault.supply(), vault.offset());
    assert(shares * effective_assets(t0) <= shares * effective_assets(t1)) by (nonlinear_arith)
        requires
            shares >= 0,
            t0 <= t1,
    ;
    lemma_div_is_ordered(shares * effective_assets(t0), shares * effective_assets(t1), es);
}

} // verus!

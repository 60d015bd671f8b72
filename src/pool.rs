use vstd::prelude::*;
use crate::error::VaultError;
use crate::principal::Principal;

verus! {

/// Fixed-point base of the lending pool's rates: a rate of `BLEND_RATE_SCALAR` is one.
pub const BLEND_RATE_SCALAR: i128 = 1_000_000_000_000;

/// Request type that supplies an asset to the pool as collateral.
pub const REQUEST_TYPE_SUPPLY_COLLATERAL: u32 = 2;

/// Request type that withdraws collateral from the pool.
pub const REQUEST_TYPE_WITHDRAW_COLLATERAL: u32 = 3;

/// Ledger sequences for which the allowance that lets the lending pool take a supply stays
/// usable.
pub const SUPPLY_ALLOWANCE_LEDGERS: u32 = 1000;

/// Ledger sequences for which the allowance that lets the exchange take claimed rewards stays
/// usable.
pub const SWAP_ALLOWANCE_LEDGERS: u32 = 100000;

/// Static parameters of one reserve of the lending pool.
#[derive(Clone, Copy, Debug, PartialEq, Eq, Structural)]
pub struct ReserveConfig {
    pub index: u32,
    pub decimals: u32,
    pub c_factor: u32,
    pub l_factor: u32,
    pub util: u32,
    pub max_util: u32,
    pub r_base: u32,
    pub r_one: u32,
    pub r_two: u32,
    pub r_three: u32,
    pub reactivity: u32,
    pub supply_cap: i128,
    pub enabled: bool,
}

/// Live state of one reserve; `b_rate` converts supplied b-tokens into asset units.
#[derive(Clone, Copy, Debug, PartialEq, Eq, Structural)]
pub struct ReserveData {
    pub d_rate: i128,
    pub b_rate: i128,
    pub ir_mod: i128,
    pub b_supply: i128,
    pub d_supply: i128,
    pub backstop_credit: i128,
    pub last_time: u64,
}

/// A principal's balances in the pool, as (reserve index, amount) pairs with distinct indices.
pub struct Positions {
    pub collateral: Vec<(u32, i128)>,
    pub liabilities: Vec<(u32, i128)>,
    pub supply: Vec<(u32, i128)>,
}

/// What the vault reads from the lending pool at the start of an operation: its own
/// positions and the data of the reserve of its asset. One snapshot serves a whole operation.
pub struct PoolSnapshot {
    pub positions: Positions,
    pub reserve: ReserveData,
}

/// One instruction to the lending pool.
pub struct Request {
    pub request_type: u32,
    pub address: Principal,
    pub amount: i128,
}

/// The amount held under reserve `index` in a list of (index, amount) pairs: the first pair
/// with that index, or zero where none has it.
pub open spec fn amount_at(entries: Seq<(u32, i128)>, index: u32) -> int
    decreases entries.len(),
{
    if entries.len() == 0 {
        0
    } else if entries[0].0 == index {
        entries[0].1 as int
    } else {
        amount_at(entries.drop_first(), index)
    }
}

/// The asset units that `collateral` b-tokens stand for at rate `b_rate`, or the reason
/// they cannot be counted: a negative product, or one outside `i128`.
pub open spec fn managed_assets(collateral: int, b_rate: int) -> Result<i128, VaultError> {
    if collateral == 0 {
        Ok(0)
    } else if collateral * b_rate > i128::MAX || collateral * b_rate < i128::MIN {
        Err(VaultError::MathOverflow)
    } else if collateral * b_rate < 0 {
        Err(VaultError::InvalidAmount)
    } else {
        Ok(((collateral * b_rate) / BLEND_RATE_SCALAR as int) as i128)
    }
}

/// The vault's assets as a snapshot shows them, for the reserve at `index`.
pub open spec fn snapshot_assets(pool: PoolSnapshot, index: u32) -> Result<i128, VaultError> {
    managed_assets(amount_at(pool.positions.collateral@, index), pool.reserve.b_rate as int)
}

/// The amount held under reserve `index`; zero where the list has no such entry.
pub fn amount_for_index(entries: &Vec<(u32, i128)>, index: u32) -> (r: i128)
    ensures
        r == amount_at(entries@, index),
{
    let mut i: usize = 0;
    assert(entries@.subrange(0, entries@.len() as int) =~= entries@);
    while i < entries.len()
        invariant
            i <= entries@.len(),
            amount_at(entries@, index) == amount_at(entries@.subrange(i as int, entries@.len() as int), index),
        decreases entries@.len() - i,
    {
        let ghost rest = entries@.subrange(i as int, entries@.len() as int);
        assert(rest[0] == entries@[i as int]);
        if entries[i].0 == index {
            return entries[i].1;
        }
        assert(rest.drop_first() =~= entries@.subrange(i + 1, entries@.len() as int));
        i = i + 1;
    }
    0
}

/// Asset units worth `collateral` b-tokens at rate `b_rate`: zero without collateral, else
/// the product over the rate base, rounded down.
pub fn assets_of_collateral(collateral: i128, b_rate: i128) -> (r: Result<i128, VaultError>)
    ensures
        r == managed_assets(collateral as int, b_rate as int),
{
    if collateral == 0 {
        return Ok(0);
    }
    match collateral.checked_mul(b_rate) {
        Some(product) => {
            if product < 0 {
                Err(VaultError::InvalidAmount)
            } else {
                Ok(product / BLEND_RATE_SCALAR)
            }
        },
        None => Err(VaultError::MathOverflow),
    }
}

/// The vault's total managed assets as the snapshot shows them: its collateral under reserve
/// `index`, valued at the reserve's current rate.
pub fn total_assets_at(pool: &PoolSnapshot, index: u32) -> (r: Result<i128, VaultError>)
    ensures
        r == snapshot_assets(*pool, index),
{
    let collateral = amount_for_index(&pool.positions.collateral, index);
    assets_of_collateral(collateral, pool.reserve.b_rate)
}

/// The last ledger sequence at which an allowance granted at `sequence` for `lifetime`
/// ledgers can be used; `None` where that passes the largest sequence.
pub fn allowance_expiration(sequence: u32, lifetime: u32) -> (r: Option<u32>)
    ensures
        sequence + lifetime <= u32::MAX ==> r == Some((sequence + lifetime) as u32),
        sequence + lifetime > u32::MAX ==> r is None,
{
    sequence.checked_add(lifetime)
}

/// The instruction that supplies `amount` of `asset` to the pool as collateral.
pub fn supply_collateral_request(asset: &Principal, amount: i128) -> (r: Request)
    ensures
        r.request_type == REQUEST_TYPE_SUPPLY_COLLATERAL,
        r.address@ == asset@,
        r.amount == amount,
{
    Request { request_type: REQUEST_TYPE_SUPPLY_COLLATERAL, address: asset.clone(), amount }
}

/// The instruction that withdraws `amount` of `asset` collateral from the pool.
pub fn withdraw_collateral_request(asset: &Principal, amount: i128) -> (r: Request)
    ensures
        r.request_type == REQUEST_TYPE_WITHDRAW_COLLATERAL,
        r.address@ == asset@,
        r.amount == amount,
{
    Request { request_type: REQUEST_TYPE_WITHDRAW_COLLATERAL, address: asset.clone(), amount }
}

} // verus!

use vstd::prelude::*;
use soroban_sdk::Env;
use stellar_contract_utils::math::i128_fixed_point::checked_mul_div_with_rounding;
use crate::error::VaultError;
use vstd::arithmetic::div_mod::{lemma_fundamental_div_mod, lemma_mod_pos_bound};

verus! {

/// Declares soroban_sdk's `Env`, the host environment, so that it can be handed through to
/// stellar_contract_utils' fixed-point routines, which build their 256-bit intermediates in
/// it. Nothing inside it is visible here.
#[verifier::external_type_specification]
#[verifier::external_body]
pub struct ExEnv(Env);

/// Direction in which a quotient is rounded.
#[derive(Clone, Copy, Debug, PartialEq, Eq, Structural)]
pub enum Rounding {
    Floor,
    Ceil,
}

/// The quotient `x * y / d` rounded as asked, for a positive divisor.
pub open spec fn mul_div(x: int, y: int, d: int, rounding: Rounding) -> int
    recommends
        d > 0,
{
    match rounding {
        Rounding::Floor => (x * y) / d,
        Rounding::Ceil => (x * y + d - 1) / d,
    }
}

pub open spec fn fits_i128(v: int) -> bool {
    i128::MIN <= v <= i128::MAX
}

pub open spec fn pow10(n: nat) -> int
    decreases n,
{
    if n == 0 {
        1
    } else {
        10 * pow10((n - 1) as nat)
    }
}

/// The virtual share supply that every conversion adds to the real one.
pub open spec fn effective_supply(total_supply: int, decimals_offset: u32) -> int {
    total_supply + pow10(decimals_offset as nat)
}

/// The virtual asset total that every conversion divides or multiplies by.
pub open spec fn effective_assets(total_assets: int) -> int {
    total_assets + 1
}

/// What converting `assets` into shares gives against the totals `total_supply` and
/// `total_assets`: `assets * (supply + 10^offset) / (total_assets + 1)`, rounded as asked.
pub open spec fn shares_for_assets(
    assets: int,
    total_supply: int,
    total_assets: int,
    decimals_offset: u32,
    rounding: Rounding,
) -> Result<i128, VaultError> {
    if assets < 0 {
        Err(VaultError::InvalidAmount)
    } else if assets == 0 {
        Ok(0)
    } else if total_supply < 0 || total_assets < 0 {
        Err(VaultError::InvalidAmount)
    } else if !fits_i128(effective_supply(total_supply, decimals_offset)) || !fits_i128(
        effective_assets(total_assets),
    ) {
        Err(VaultError::MathOverflow)
    } else {
        let v = mul_div(
            assets,
            effective_supply(total_supply, decimals_offset),
            effective_assets(total_assets),
            rounding,
        );
        if fits_i128(v) {
            Ok(v as i128)
        } else {
            Err(VaultError::MathOverflow)
        }
    }
}

/// What converting `shares` into assets gives against the totals `total_supply` and
/// `total_assets`: `shares * (total_assets + 1) / (supply + 10^offset)`, rounded as asked.
pub open spec fn assets_for_shares(
    shares: int,
    total_supply: int,
    total_assets: int,
    decimals_offset: u32,
    rounding: Rounding,
) -> Result<i128, VaultError> {
    if shares < 0 {
        Err(VaultError::InvalidAmount)
    } else if shares == 0 {
        Ok(0)
    } else if total_supply < 0 || total_assets < 0 {
        Err(VaultError::InvalidAmount)
    } else if !fits_i128(effective_supply(total_supply, decimals_offset)) || !fits_i128(
        effective_assets(total_assets),
    ) {
        Err(VaultError::MathOverflow)
    } else {
        let v = mul_div(
            shares,
            effective_assets(total_assets),
            effective_supply(total_supply, decimals_offset),
            rounding,
        );
        if fits_i128(v) {
            Ok(v as i128)
        } else {
            Err(VaultError::MathOverflow)
        }
    }
}

pub proof fn lemma_pow10_positive(n: nat)
    ensures
        pow10(n) >= 1,
    decreases n,
{
    if n > 0 {
        lemma_pow10_positive((n - 1) as nat);
    }
}

proof fn lemma_pow10_grows(a: nat, b: nat)
    requires
        a <= b,
    ensures
        1 <= pow10(a) <= pow10(b),
    decreases b,
{
    lemma_pow10_positive(a);
    if b > a {
        lemma_pow10_grows(a, (b - 1) as nat);
    }
}

/// Relies on stellar_contract_utils' `checked_mul_div_with_rounding`: the floor or the
/// ceiling of `x * y / d` (through a 256-bit product where `x * y` overflows), or `None`
/// when that quotient does not fit in an `i128`.
#[verifier::external_body]
fn checked_mul_div(e: &Env, x: i128, y: i128, d: i128, rounding: Rounding) -> (r: Option<i128>)
    requires
        d > 0,
    ensures
        match r {
            Some(v) => v == mul_div(x as int, y as int, d as int, rounding),
            None => !fits_i128(mul_div(x as int, y as int, d as int, rounding)),
        },
{
    let mode = match rounding {
        Rounding::Floor => stellar_contract_utils::math::Rounding::Floor,
        Rounding::Ceil => stellar_contract_utils::math::Rounding::Ceil,
    };
    checked_mul_div_with_rounding(e, x, y, d, mode)
}

/// Ten to the power `exp`, or `None` where that leaves the `i128` range.
pub fn checked_pow10(exp: u32) -> (r: Option<i128>)
    ensures
        match r {
            Some(v) => v == pow10(exp as nat),
            None => pow10(exp as nat) > i128::MAX,
        },
{
    let mut acc: i128 = 1;
    let mut i: u32 = 0;
    while i < exp
        invariant
            i <= exp,
            acc == pow10(i as nat),
        decreases exp - i,
    {
        proof {
            lemma_pow10_grows(0, i as nat);
        }
        match acc.checked_mul(10) {
            Some(v) => {
                acc = v;
            },
            None => {
                proof {
                    lemma_pow10_grows((i + 1) as nat, exp as nat);
                }
                return None;
            },
        }
        i = i + 1;
    }
    Some(acc)
}

/// The shifted totals `(supply + 10^offset, total_assets + 1)` that both conversions use.
fn effective_totals(total_supply: i128, total_assets: i128, decimals_offset: u32) -> (r: Result<
    (i128, i128),
    VaultError,
>)
    requires
        total_supply >= 0,
        total_assets >= 0,
    ensures
        match r {
            Ok((s, a)) => s >= 1 && a >= 1 && s == effective_supply(total_supply as int, decimals_offset) && a
                == effective_assets(total_assets as int) && fits_i128(s as int) && fits_i128(
                a as int,
            ),
            Err(err) => err == VaultError::MathOverflow && (!fits_i128(
                effective_supply(total_supply as int, decimals_offset),
            ) || !fits_i128(effective_assets(total_assets as int))),
        },
{
    proof {
        lemma_pow10_positive(decimals_offset as nat);
    }
    let pow = match checked_pow10(decimals_offset) {
        Some(p) => p,
        None => {
            return Err(VaultError::MathOverflow);
        },
    };
    let supply = match total_supply.checked_add(pow) {
        Some(s) => s,
        None => {
            return Err(VaultError::MathOverflow);
        },
    };
    let assets = match total_assets.checked_add(1) {
        Some(a) => a,
        None => {
            return Err(VaultError::MathOverflow);
        },
    };
    Ok((supply, assets))
}

/// Converts an asset amount into shares against the given totals.
///
/// A zero amount converts to zero without touching the formula; a negative amount or
/// total is refused with `InvalidAmount`; a result outside `i128` with `MathOverflow`.
pub fn convert_assets_to_shares(
    e: &Env,
    assets: i128,
    total_supply: i128,
    total_assets: i128,
    decimals_offset: u32,
    rounding: Rounding,
) -> (r: Result<i128, VaultError>)
    ensures
        r == shares_for_assets(
            assets as int,
            total_supply as int,
            total_assets as int,
            decimals_offset,
            rounding,
        ),
{
    if assets < 0 {
        return Err(VaultError::InvalidAmount);
    }
    if assets == 0 {
        return Ok(0);
    }
    if total_supply < 0 || total_assets < 0 {
        return Err(VaultError::InvalidAmount);
    }
    let (supply, assets_total) = match effective_totals(total_supply, total_assets, decimals_offset) {
        Ok(t) => t,
        Err(err) => {
            return Err(err);
        },
    };
    match checked_mul_div(e, assets, supply, assets_total, rounding) {
        Some(v) => Ok(v),
        None => Err(VaultError::MathOverflow),
    }
}

/// Converts a share amount into assets against the given totals.
///
/// A zero amount converts to zero without touching the formula; a negative amount or
/// total is refused with `InvalidAmount`; a result outside `i128` with `MathOverflow`.
pub fn convert_shares_to_assets(
    e: &Env,
    shares: i128,
    total_supply: i128,
    total_assets: i128,
    decimals_offset: u32,
    rounding: Rounding,
) -> (r: Result<i128, VaultError>)
    ensures
        r == assets_for_shares(
            shares as int,
            total_supply as int,
            total_assets as int,
            decimals_offset,
            rounding,
        ),
{
    if shares < 0 {
        return Err(VaultError::InvalidAmount);
    }
    if shares == 0 {
        return Ok(0);
    }
    if total_supply < 0 || total_assets < 0 {
        return Err(VaultError::InvalidAmount);
    }
    let (supply, assets_total) = match effective_totals(total_supply, total_assets, decimals_offset) {
        Ok(t) => t,
        Err(err) => {
            return Err(err);
        },
    };
    match checked_mul_div(e, shares, assets_total, supply, rounding) {
        Some(v) => Ok(v),
        None => Err(VaultError::MathOverflow),
    }
}

proof fn lemma_mul_div_nonneg(x: int, y: int, d: int, rounding: Rounding)
    requires
        x >= 0,
        y >= 0,
        d > 0,
    ensures
        mul_div(x, y, d, rounding) >= 0,
{
    assert(x * y >= 0) by (nonlinear_arith)
        requires
            x >= 0,
            y >= 0,
    ;
}

/// A successful conversion never yields a negative amount.
pub proof fn lemma_conversions_nonneg(
    amount: int,
    total_supply: int,
    total_assets: int,
    decimals_offset: u32,
    rounding: Rounding,
)
    ensures
        shares_for_assets(amount, total_supply, total_assets, decimals_offset, rounding) is Ok
            ==> shares_for_assets(
            amount,
            total_supply,
            total_assets,
            decimals_offset,
            rounding,
        )->Ok_0 >= 0,
        assets_for_shares(amount, total_supply, total_assets, decimals_offset, rounding) is Ok
            ==> assets_for_shares(
            amount,
            total_supply,
            total_assets,
            decimals_offset,
            rounding,
        )->Ok_0 >= 0,
{
    lemma_pow10_positive(decimals_offset as nat);
    if amount > 0 && total_supply >= 0 && total_assets >= 0 {
        let es = effective_supply(total_supply, decimals_offset);
        let ea = effective_assets(total_assets);
        lemma_mul_div_nonneg(amount, es, ea, rounding);
        lemma_mul_div_nonneg(amount, ea, es, rounding);
    }
}

/// On an empty vault (no shares, no assets, no decimals offset) an asset amount converts to
/// exactly as many shares, whichever way the quotient is rounded.
pub proof fn lemma_empty_vault_converts_one_to_one(assets: i128, rounding: Rounding)
    requires
        assets > 0,
    ensures
        shares_for_assets(assets as int, 0, 0, 0, rounding) == Ok::<i128, VaultError>(assets),
{
    assert(pow10(0) == 1);
    assert(effective_supply(0, 0) == 1);
    assert(mul_div(assets as int, 1, 1, rounding) == assets as int);
}

/// Converting an asset amount into shares and those shares back into assets, both rounded
/// down, never gives back more than went in: rounding favours the vault. The loss stays below
/// one unit plus the value of one share, `(total_assets + 1) / (supply + 10^offset)`, so it
/// is at most one unit while a share is worth no more than one unit of the asset.
pub proof fn lemma_round_trip(
    assets: int,
    total_supply: int,
    total_assets: int,
    decimals_offset: u32,
)
    requires
        0 <= assets,
        0 <= total_supply,
        0 <= total_assets,
        shares_for_assets(assets, total_supply, total_assets, decimals_offset, Rounding::Floor) is Ok,
        assets_for_shares(
            shares_for_assets(
                assets,
                total_supply,
                total_assets,
                decimals_offset,
                Rounding::Floor,
            )->Ok_0 as int,
            total_supply,
            total_assets,
            decimals_offset,
            Rounding::Floor,
        ) is Ok,
    ensures
        ({
            let shares = shares_for_assets(
                assets,
                total_supply,
                total_assets,
                decimals_offset,
                Rounding::Floor,
            )->Ok_0 as int;
            let back = assets_for_shares(
                shares,
                total_supply,
                total_assets,
                decimals_offset,
                Rounding::Floor,
            )->Ok_0 as int;
            let es = effective_supply(total_supply, decimals_offset);
            let ea = effective_assets(total_assets);
            &&& 0 <= back <= assets
            &&& (assets - back - 1) * es < ea
            &&& ea <= es ==> assets - back <= 1
        }),
{
    let es = effective_supply(total_supply, decimals_offset);
    let ea = effective_assets(total_assets);
    lemma_pow10_positive(decimals_offset as nat);
    let shares = shares_for_assets(
        assets,
        total_supply,
        total_assets,
        decimals_offset,
        Rounding::Floor,
    )->Ok_0 as int;
    let back = assets_for_shares(
        shares,
        total_supply,
        total_assets,
        decimals_offset,
        Rounding::Floor,
    )->Ok_0 as int;
    if assets > 0 {
        assert(es >= 1 && ea >= 1);
        assert(assets * es >= 0) by (nonlinear_arith)
            requires
                assets >= 0,
                es >= 1,
        ;
        assert(shares == (assets * es) / ea);
        lemma_fundamental_div_mod(assets * es, ea);
        lemma_mod_pos_bound(assets * es, ea);
        assert(shares * ea <= assets * es < shares * ea + ea) by (nonlinear_arith)
            requires
                assets * es == ea * ((assets * es) / ea) + (assets * es) % ea,
                0 <= (assets * es) % ea < ea,
                shares == (assets * es) / ea,
        ;
        assert(shares >= 0) by (nonlinear_arith)
            requires
                shares * ea <= assets * es < shares * ea + ea,
                assets * es >= 0,
                ea >= 1,
        ;
        if shares > 0 {
            assert(shares * ea >= 0) by (nonlinear_arith)
                requires
                    shares >= 0,
                    ea >= 1,
            ;
            assert(back == (shares * ea) / es);
            lemma_fundamental_div_mod(shares * ea, es);
            lemma_mod_pos_bound(shares * ea, es);
            assert(back * es <= shares * ea < back * es + es) by (nonlinear_arith)
                requires
                    shares * ea == es * ((shares * ea) / es) + (shares * ea) % es,
                    0 <= (shares * ea) % es < es,
                    back == (shares * ea) / es,
            ;
            assert(back >= 0) by (nonlinear_arith)
                requires
                    shares * ea < back * es + es,
                    shares * ea >= 0,
                    es >= 1,
            ;
            assert(back <= assets) by (nonlinear_arith)
                requires
                    back * es <= assets * es,
                    es >= 1,
            ;
            assert((assets - back - 1) * es < ea) by (nonlinear_arith)
                requires
                    assets * es < shares * ea + ea,
                    shares * ea < back * es + es,
            ;
        } else {
            assert(back == 0);
            assert(shares * ea == 0) by (nonlinear_arith)
                requires
                    shares == 0,
            ;
            assert((assets - 1) * es < ea) by (nonlinear_arith)
                requires
                    assets * es < ea,
                    es >= 1,
            ;
        }
        if ea <= es {
            assert(assets - back <= 1) by (nonlinear_arith)
                requires
                    (assets - back - 1) * es < ea,
                    ea <= es,
                    es >= 1,
            ;
        }
    } else {
        assert(shares == 0);
        assert(back == 0);
        assert((assets - back - 1) * es == -es) by (nonlinear_arith)
            requires
                assets == 0,
                back == 0,
        ;
    }
}

} // verus!

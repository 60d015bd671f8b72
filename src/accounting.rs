use vstd::prelude::*;
use crate::error::VaultError;
use crate::ledger::{lemma_balance_at, owners_of, sum_of, ShareLedger};
use crate::math::{
    effective_assets, effective_supply, lemma_conversions_nonneg, lemma_pow10_positive, mul_div,
    Rounding,
};
use crate::pool::PoolSnapshot;
use crate::vault::BlendVaultContract;
use vstd::arithmetic::div_mod::{lemma_fundamental_div_mod, lemma_mod_pos_bound};

verus! {

/// What `shares` are worth in assets against the totals given, rounded down as withdrawals
/// round it.
pub open spec fn asset_value(shares: int, total_supply: int, total_assets: int, decimals_offset: u32) -> int {
    mul_div(
        shares,
        effective_assets(total_assets),
        effective_supply(total_supply, decimals_offset),
        Rounding::Floor,
    )
}

/// The asset value of the balances of `members`, added up.
pub open spec fn depositors_value(
    members: Seq<Seq<char>>,
    ledger: ShareLedger,
    total_assets: int,
    decimals_offset: u32,
) -> int
    decreases members.len(),
{
    if members.len() == 0 {
        0
    } else {
        depositors_value(members.drop_last(), ledger, total_assets, decimals_offset) + asset_value(
            ledger.balance_of(members.last()),
            ledger.supply(),
            total_assets,
            decimals_offset,
        )
    }
}

proof fn lemma_floor_times_divisor(x: int, a: int, e: int)
    requires
        x >= 0,
        a >= 1,
        e >= 1,
    ensures
        0 <= mul_div(x, a, e, Rounding::Floor),
        mul_div(x, a, e, Rounding::Floor) * e <= x * a,
{
    assert(x * a >= 0) by (nonlinear_arith)
        requires
            x >= 0,
            a >= 1,
    ;
    lemma_fundamental_div_mod(x * a, e);
    lemma_mod_pos_bound(x * a, e);
    let q = (x * a) / e;
    assert(q * e <= x * a) by (nonlinear_arith)
        requires
            x * a == e * q + (x * a) % e,
            0 <= (x * a) % e,
    ;
    assert(q >= 0) by (nonlinear_arith)
        requires
            x * a == e * q + (x * a) % e,
            (x * a) % e < e,
            x * a >= 0,
            e >= 1,
    ;
}

proof fn lemma_prefix_value(accounts: Seq<(Seq<char>, int)>, ledger: ShareLedger, t: int, o: u32, k: int)
    requires
        ledger.wf(),
        ledger@ == accounts,
        0 <= k <= accounts.len(),
        t >= 0,
    ensures
        depositors_value(owners_of(accounts).take(k), ledger, t, o) * effective_supply(
            ledger.supply(),
            o,
        ) <= effective_assets(t) * sum_of(accounts.take(k)),
    decreases k,
{
    let es = effective_supply(ledger.supply(), o);
    let ea = effective_assets(t);
    lemma_pow10_positive(o as nat);
    crate::ledger::lemma_balance_bounded(accounts, Seq::empty());
    if k == 0 {
        assert(owners_of(accounts).take(0) =~= Seq::<Seq<char>>::empty());
        assert(accounts.take(0) =~= Seq::<(Seq<char>, int)>::empty());
    } else {
        lemma_prefix_value(accounts, ledger, t, o, k - 1);
        let m = owners_of(accounts).take(k);
        assert(m.drop_last() =~= owners_of(accounts).take(k - 1));
        assert(m.last() == accounts[k - 1].0);
        assert(accounts.take(k).drop_last() =~= accounts.take(k - 1));
        assert(accounts.take(k).last() == accounts[k - 1]);
        lemma_balance_at(accounts, k - 1);
        let x = accounts[k - 1].1;
        assert(x >= 0);
        lemma_floor_times_divisor(x, ea, es);
        let prev = depositors_value(owners_of(accounts).take(k - 1), ledger, t, o);
        let v = mul_div(x, ea, es, Rounding::Floor);
        assert(depositors_value(m, ledger, t, o) == prev + v);
        assert(sum_of(accounts.take(k)) == sum_of(accounts.take(k - 1)) + x);
        assert((prev + v) * es <= ea * (sum_of(accounts.take(k - 1)) + x)) by (nonlinear_arith)
            requires
                prev * es <= ea * sum_of(accounts.take(k - 1)),
                v * es <= x * ea,
        ;
    }
}

/// The registered depositors' balances, each valued in assets and rounded down as a
/// withdrawal rounds it, never add up to more than the managed assets that the pool shows:
/// at most one rounding unit per depositor above them, and in fact not above them at all.
pub proof fn lemma_depositors_covered(vault: BlendVaultContract, pool: PoolSnapshot)
    requires
        vault.wf(),
        vault.assets_in(pool) is Ok,
    ensures
        ({
            let t = vault.assets_in(pool)->Ok_0 as int;
            let total = depositors_value(vault.depositors(), vault.shares(), t, vault.offset());
            &&& total <= t + vault.depositors().len()
            &&& total <= t
        }),
{
    let t = vault.assets_in(pool)->Ok_0 as int;
    let ledger = vault.shares();
    let accounts = ledger@;
    let o = vault.offset();
    let es = effective_supply(ledger.supply(), o);
    let ea = effective_assets(t);
    let c = vault.configuration()->Some_0;
    let product = crate::pool::amount_at(pool.positions.collateral@, c.usdc_reserve_index)
        * pool.reserve.b_rate;
    if crate::pool::amount_at(pool.positions.collateral@, c.usdc_reserve_index) != 0 {
        assert(product >= 0);
        assert(product / crate::pool::BLEND_RATE_SCALAR as int >= 0);
    }
    assert(t >= 0);
    lemma_prefix_value(accounts, ledger, t, o, accounts.len() as int);
    assert(owners_of(accounts).take(accounts.len() as int) =~= vault.depositors());
    assert(accounts.take(accounts.len() as int) =~= accounts);
    lemma_pow10_positive(o as nat);
    let total = depositors_value(vault.depositors(), ledger, t, o);
    let s = ledger.supply();
    assert(s >= 0) by {
        crate::ledger::lemma_balance_bounded(accounts, Seq::empty());
    }
    assert(s < es);
    assert(ea * s < ea * es) by (nonlinear_arith)
        requires
            s < es,
            ea >= 1,
    ;
    assert(total < ea) by (nonlinear_arith)
        requires
            total * es < ea * es,
            es >= 1,
    ;
}

/// The first `initialize` of a vault succeeds and every later one fails.
pub proof fn lemma_initialize_once(fresh: BlendVaultContract, configured: BlendVaultContract)
    requires
        !fresh.initialized(),
        configured.initialized(),
    ensures
        fresh.initialize_result() is Ok,
        configured.initialize_result() == Err::<(), VaultError>(VaultError::AlreadyInitialized),
{
}

/// A zero amount makes `deposit`, `mint`, `withdraw` and `redeem` return zero (and, by their
/// contracts, change nothing), whatever the vault and the pool.
pub proof fn lemma_zero_amounts(vault: BlendVaultContract, pool: PoolSnapshot, who: Seq<char>)
    ensures
        vault.deposit_result(pool, 0) == Ok::<i128, VaultError>(0),
        vault.mint_result(pool, 0) == Ok::<i128, VaultError>(0),
        vault.withdraw_result(pool, 0, who) == Ok::<i128, VaultError>(0),
        vault.redeem_result(pool, 0, who) == Ok::<i128, VaultError>(0),
{
}

/// Withdrawing more assets than `max_withdraw` reports for the owner always fails (and, by
/// the contract of `withdraw`, leaves every balance as it was).
pub proof fn lemma_withdraw_above_max_fails(
    vault: BlendVaultContract,
    pool: PoolSnapshot,
    owner: Seq<char>,
    assets: i128,
)
    requires
        vault.wf(),
        vault.assets_quote(pool, vault.balance_of(owner), Rounding::Floor) is Ok,
        assets > vault.assets_quote(pool, vault.balance_of(owner), Rounding::Floor)->Ok_0,
    ensures
        vault.withdraw_result(pool, assets as int, owner) is Err,
{
    let b = vault.balance_of(owner);
    let m = vault.assets_quote(pool, b, Rounding::Floor)->Ok_0 as int;
    crate::ledger::lemma_balance_bounded(vault.shares()@, owner);
    lemma_conversions_nonneg(b, 0, 0, 0, Rounding::Floor);
    if vault.initialized() && vault.shares_quote(pool, assets as int, Rounding::Ceil) is Ok {
        let t = vault.assets_in(pool)->Ok_0 as int;
        let o = vault.offset();
        lemma_pow10_positive(o as nat);
        let es = effective_supply(vault.supply(), o);
        let ea = effective_assets(t);
        let s = vault.shares_quote(pool, assets as int, Rounding::Ceil)->Ok_0 as int;
        let a = assets as int;
        assert(t >= 0 && vault.supply() >= 0 && a > 0);
        // s is the ceiling of a * es / ea, so s * ea >= a * es.
        assert(s == (a * es + ea - 1) / ea);
        lemma_fundamental_div_mod(a * es + ea - 1, ea);
        lemma_mod_pos_bound(a * es + ea - 1, ea);
        assert(s * ea >= a * es) by (nonlinear_arith)
            requires
                a * es + ea - 1 == ea * s + (a * es + ea - 1) % ea,
                (a * es + ea - 1) % ea < ea,
        ;
        // m is the floor of b * ea / es, so b * ea < (m + 1) * es <= a * es.
        if b > 0 {
            assert(m == (b * ea) / es);
            assert(b * ea >= 0) by (nonlinear_arith)
                requires
                    b >= 0,
                    ea >= 1,
            ;
            lemma_fundamental_div_mod(b * ea, es);
            lemma_mod_pos_bound(b * ea, es);
            assert(b * ea < (m + 1) * es) by (nonlinear_arith)
                requires
                    b * ea == es * m + (b * ea) % es,
                    (b * ea) % es < es,
            ;
        } else {
            assert(b == 0 && m == 0);
            assert(b * ea == 0) by (nonlinear_arith)
                requires
                    b == 0,
            ;
        }
        assert((m + 1) * es <= a * es) by (nonlinear_arith)
            requires
                m + 1 <= a,
                es >= 1,
        ;
        assert(s > b) by (nonlinear_arith)
            requires
                s * ea >= a * es,
                b * ea < (m + 1) * es,
                (m + 1) * es <= a * es,
                ea >= 1,
        ;
    }
}

} // verus!

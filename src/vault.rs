use vstd::prelude::*;
use soroban_sdk::Env;
use crate::error::VaultError;
use crate::ledger::{
    accounts_wf, balance_in, holdings, lemma_balance_absent, owners_of, sum_of, ShareLedger,
};
use crate::math::{
    assets_for_shares, convert_assets_to_shares, convert_shares_to_assets, lemma_conversions_nonneg,
    shares_for_assets, Rounding,
};
use crate::pool::{snapshot_assets, total_assets_at, PoolSnapshot};
use crate::principal::Principal;
use crate::registry::DepositorRegistry;

verus! {

/// Keys under which a host keeps the vault's state.
#[derive(Clone, Copy, Debug, PartialEq, Eq, Structural)]
pub enum DataKey {
    Initialized,
    BlendPool,
    USDCReserveIndex,
    BLNDToken,
    BLNDReserveIndex,
    CometPool,
    Depositors,
}

/// What `initialize` records, once: the underlying asset, the share decimals offset, the
/// lending pool and the asset's reserve index in it, the reward token and its reserve index,
/// and the exchange pool that swaps rewards for the asset.
pub struct VaultConfig {
    pub asset: Principal,
    pub decimals_offset: u32,
    pub blend_pool: Principal,
    pub usdc_reserve_index: u32,
    pub blnd_token: Principal,
    pub blnd_reserve_index: u32,
    pub comet_pool: Principal,
}

/// The vault: its configuration once initialized, the share ledger and the registry of
/// depositors. The assets themselves sit in the lending pool, which each operation reads
/// through a `PoolSnapshot`.
pub struct BlendVaultContract {
    config: Option<VaultConfig>,
    ledger: ShareLedger,
    depositors: DepositorRegistry,
}

/// `registry` with `who` added unless it is already there.
pub open spec fn registered(registry: Seq<Seq<char>>, who: Seq<char>) -> Seq<Seq<char>> {
    if registry.contains(who) {
        registry
    } else {
        registry.push(who)
    }
}

/// `after` is `before` with `amount` shares credited to `receiver`, who is registered.
pub open spec fn credited(
    before: BlendVaultContract,
    after: BlendVaultContract,
    receiver: Seq<char>,
    amount: int,
) -> bool {
    &&& after.configuration() == before.configuration()
    &&& after.supply() == before.supply() + amount
    &&& forall|who: Seq<char>| #[trigger]
        after.balance_of(who) == before.balance_of(who) + (if who == receiver {
            amount
        } else {
            0
        })
    &&& after.depositors() == registered(before.depositors(), receiver)
}

/// `after` is `before` with `amount` shares burned from `owner`.
pub open spec fn debited(
    before: BlendVaultContract,
    after: BlendVaultContract,
    owner: Seq<char>,
    amount: int,
) -> bool {
    &&& after.configuration() == before.configuration()
    &&& after.supply() == before.supply() - amount
    &&& forall|who: Seq<char>| #[trigger]
        after.balance_of(who) == before.balance_of(who) - (if who == owner {
            amount
        } else {
            0
        })
    &&& after.depositors() == before.depositors()
}

/// The registered depositors with a non-zero balance, each with that balance, in
/// registration order.
pub open spec fn snapshot_of(members: Seq<Seq<char>>, ledger: ShareLedger) -> Seq<(Seq<char>, int)>
    decreases members.len(),
{
    if members.len() == 0 {
        Seq::empty()
    } else {
        let rest = snapshot_of(members.drop_last(), ledger);
        let m = members.last();
        if ledger.balance_of(m) > 0 {
            rest.push((m, ledger.balance_of(m)))
        } else {
            rest
        }
    }
}

impl BlendVaultContract {
    pub closed spec fn configuration(&self) -> Option<VaultConfig> {
        self.config
    }

    pub closed spec fn shares(&self) -> ShareLedger {
        self.ledger
    }

    pub closed spec fn registry(&self) -> DepositorRegistry {
        self.depositors
    }

    pub open spec fn initialized(&self) -> bool {
        self.configuration() is Some
    }

    pub open spec fn supply(&self) -> int {
        self.shares().supply()
    }

    pub open spec fn balance_of(&self, who: Seq<char>) -> int {
        self.shares().balance_of(who)
    }

    pub open spec fn depositors(&self) -> Seq<Seq<char>> {
        self.registry()@
    }

    /// The decimals offset in force: the configured one, zero before initialization.
    pub open spec fn offset(&self) -> u32 {
        match self.configuration() {
            Some(c) => c.decimals_offset,
            None => 0,
        }
    }

    /// The ledger and the registry are well formed, and the registry lists exactly the
    /// principals that hold an account, in the same order.
    pub open spec fn wf(&self) -> bool {
        &&& self.shares().wf()
        &&& self.registry().wf()
        &&& self.depositors() == self.shares().owners()
    }

    /// The vault's managed assets as `pool` shows them.
    pub open spec fn assets_in(&self, pool: PoolSnapshot) -> Result<i128, VaultError> {
        match self.configuration() {
            Some(c) => snapshot_assets(pool, c.usdc_reserve_index),
            None => Err(VaultError::NotInitialized),
        }
    }

    /// Shares worth `assets` at the price that `pool` shows, rounded as asked.
    pub open spec fn shares_quote(&self, pool: PoolSnapshot, assets: int, rounding: Rounding) -> Result<
        i128,
        VaultError,
    > {
        if assets < 0 {
            Err(VaultError::InvalidAmount)
        } else if assets == 0 {
            Ok(0)
        } else {
            match self.assets_in(pool) {
                Ok(t) => shares_for_assets(assets, self.supply(), t as int, self.offset(), rounding),
                Err(err) => Err(err),
            }
        }
    }

    /// Assets worth `shares` at the price that `pool` shows, rounded as asked.
    pub open spec fn assets_quote(&self, pool: PoolSnapshot, shares: int, rounding: Rounding) -> Result<
        i128,
        VaultError,
    > {
        if shares < 0 {
            Err(VaultError::InvalidAmount)
        } else if shares == 0 {
            Ok(0)
        } else {
            match self.assets_in(pool) {
                Ok(t) => assets_for_shares(shares, self.supply(), t as int, self.offset(), rounding),
                Err(err) => Err(err),
            }
        }
    }

    /// What `deposit` returns: the shares minted for `assets`, rounded down.
    pub open spec fn deposit_result(&self, pool: PoolSnapshot, assets: int) -> Result<i128, VaultError> {
        if assets == 0 {
            Ok(0)
        } else if !self.initialized() {
            Err(VaultError::NotInitialized)
        } else {
            match self.shares_quote(pool, assets, Rounding::Floor) {
                Ok(s) => if self.supply() + s > i128::MAX {
                    Err(VaultError::MathOverflow)
                } else {
                    Ok(s)
                },
                Err(err) => Err(err),
            }
        }
    }

    /// What `mint` returns: the assets pulled for `shares`, rounded up.
    pub open spec fn mint_result(&self, pool: PoolSnapshot, shares: int) -> Result<i128, VaultError> {
        if shares == 0 {
            Ok(0)
        } else if !self.initialized() {
            Err(VaultError::NotInitialized)
        } else {
            match self.assets_quote(pool, shares, Rounding::Ceil) {
                Ok(a) => if self.supply() + shares > i128::MAX {
                    Err(VaultError::MathOverflow)
                } else {
                    Ok(a)
                },
                Err(err) => Err(err),
            }
        }
    }

    /// What `withdraw` returns: the shares burned from `owner` for `assets`, rounded up.
    pub open spec fn withdraw_result(&self, pool: PoolSnapshot, assets: int, owner: Seq<char>) -> Result<
        i128,
        VaultError,
    > {
        if assets == 0 {
            Ok(0)
        } else if !self.initialized() {
            Err(VaultError::NotInitialized)
        } else {
            match self.shares_quote(pool, assets, Rounding::Ceil) {
                Ok(s) => if self.balance_of(owner) < s {
                    Err(
                        VaultError::InsufficientShares {
                            available: self.balance_of(owner) as i128,
                            required: s,
                        },
                    )
                } else {
                    Ok(s)
                },
                Err(err) => Err(err),
            }
        }
    }

    /// What `redeem` returns: the assets paid out for `shares` burned from `owner`, rounded
    /// down.
    pub open spec fn redeem_result(&self, pool: PoolSnapshot, shares: int, owner: Seq<char>) -> Result<
        i128,
        VaultError,
    > {
        if shares == 0 {
            Ok(0)
        } else if !self.initialized() {
            Err(VaultError::NotInitialized)
        } else {
            match self.assets_quote(pool, shares, Rounding::Floor) {
                Ok(a) => if self.balance_of(owner) < shares {
                    Err(
                        VaultError::InsufficientShares {
                            available: self.balance_of(owner) as i128,
                            required: shares as i128,
                        },
                    )
                } else {
                    Ok(a)
                },
                Err(err) => Err(err),
            }
        }
    }

    /// What `initialize` returns: success exactly on a vault that is not initialized.
    pub open spec fn initialize_result(&self) -> Result<(), VaultError> {
        if self.initialized() {
            Err(VaultError::AlreadyInitialized)
        } else {
            Ok(())
        }
    }

    /// A vault that is not initialized yet, with no shares and no depositors.
    pub fn new() -> (r: BlendVaultContract)
        ensures
            r.wf(),
            !r.initialized(),
            r.supply() == 0,
            r.depositors() == Seq::<Seq<char>>::empty(),
            forall|who: Seq<char>| #[trigger] r.balance_of(who) == 0,
    {
        let r = BlendVaultContract {
            config: None,
            ledger: ShareLedger::new(),
            depositors: DepositorRegistry::new(),
        };
        assert(r.shares().owners() =~= Seq::<Seq<char>>::empty());
        r
    }

    /// Records the configuration. Only the first call succeeds; any later one is refused
    /// with `AlreadyInitialized` and changes nothing.
    pub fn initialize(
        &mut self,
        asset: Principal,
        decimals_offset: u32,
        blend_pool: Principal,
        usdc_reserve_index: u32,
        blnd_token: Principal,
        blnd_reserve_index: u32,
        comet_pool: Principal,
    ) -> (r: Result<(), VaultError>)
        ensures
            r == old(self).initialize_result(),
            old(self).initialized() ==> *final(self) == *old(self),
            !old(self).initialized() ==> {
                &&& final(self).initialized()
                &&& final(self).configuration() == Some(
                    VaultConfig {
                        asset,
                        decimals_offset,
                        blend_pool,
                        usdc_reserve_index,
                        blnd_token,
                        blnd_reserve_index,
                        comet_pool,
                    },
                )
                &&& final(self).shares() == old(self).shares()
                &&& final(self).registry() == old(self).registry()
            },
    {
        if self.config.is_some() {
            return Err(VaultError::AlreadyInitialized);
        }
        self.config = Some(
            VaultConfig {
                asset,
                decimals_offset,
                blend_pool,
                usdc_reserve_index,
                blnd_token,
                blnd_reserve_index,
                comet_pool,
            },
        );
        Ok(())
    }

    pub fn is_initialized(&self) -> (r: bool)
        ensures
            r == self.initialized(),
    {
        self.config.is_some()
    }

    pub fn total_supply(&self) -> (r: i128)
        ensures
            r == self.supply(),
    {
        self.ledger.total_supply()
    }

    /// The shares that `who` holds.
    pub fn balance(&self, who: &Principal) -> (r: i128)
        requires
            self.wf(),
        ensures
            r == self.balance_of(who@),
    {
        self.ledger.balance(who)
    }

    /// The vault's managed assets: its collateral in the lending pool valued at the
    /// reserve's current rate, as `pool` shows them.
    pub fn total_assets(&self, pool: &PoolSnapshot) -> (r: Result<i128, VaultError>)
        ensures
            r == self.assets_in(*pool),
    {
        match &self.config {
            Some(c) => total_assets_at(pool, c.usdc_reserve_index),
            None => Err(VaultError::NotInitialized),
        }
    }

    fn decimals_offset(&self) -> (r: u32)
        ensures
            r == self.offset(),
    {
        match &self.config {
            Some(c) => c.decimals_offset,
            None => 0,
        }
    }

    fn convert_assets_to_shares(
        &self,
        e: &Env,
        assets: i128,
        pool: &PoolSnapshot,
        rounding: Rounding,
    ) -> (r: Result<i128, VaultError>)
        ensures
            r == self.shares_quote(*pool, assets as int, rounding),
            r is Ok ==> r->Ok_0 >= 0,
    {
        if assets < 0 {
            return Err(VaultError::InvalidAmount);
        }
        if assets == 0 {
            return Ok(0);
        }
        let total = match self.total_assets(pool) {
            Ok(t) => t,
            Err(err) => {
                return Err(err);
            },
        };
        proof {
            lemma_conversions_nonneg(assets as int, self.supply(), total as int, self.offset(), rounding);
        }
        convert_assets_to_shares(e, assets, self.total_supply(), total, self.decimals_offset(), rounding)
    }

    fn convert_shares_to_assets(
        &self,
        e: &Env,
        shares: i128,
        pool: &PoolSnapshot,
        rounding: Rounding,
    ) -> (r: Result<i128, VaultError>)
        ensures
            r == self.assets_quote(*pool, shares as int, rounding),
            r is Ok ==> r->Ok_0 >= 0,
    {
        if shares < 0 {
            return Err(VaultError::InvalidAmount);
        }
        if shares == 0 {
            return Ok(0);
        }
        let total = match self.total_assets(pool) {
            Ok(t) => t,
            Err(err) => {
                return Err(err);
            },
        };
        proof {
            lemma_conversions_nonneg(shares as int, self.supply(), total as int, self.offset(), rounding);
        }
        convert_shares_to_assets(e, shares, self.total_supply(), total, self.decimals_offset(), rounding)
    }

    /// Shares worth `assets`, rounded down.
    pub fn convert_to_shares(&self, e: &Env, assets: i128, pool: &PoolSnapshot) -> (r: Result<
        i128,
        VaultError,
    >)
        ensures
            r == self.shares_quote(*pool, assets as int, Rounding::Floor),
    {
        self.convert_assets_to_shares(e, assets, pool, Rounding::Floor)
    }

    /// Assets worth `shares`, rounded down.
    pub fn convert_to_assets(&self, e: &Env, shares: i128, pool: &PoolSnapshot) -> (r: Result<
        i128,
        VaultError,
    >)
        ensures
            r == self.assets_quote(*pool, shares as int, Rounding::Floor),
    {
        self.convert_shares_to_assets(e, shares, pool, Rounding::Floor)
    }

    /// The shares a deposit of `assets` would mint now, rounded down.
    pub fn preview_deposit(&self, e: &Env, assets: i128, pool: &PoolSnapshot) -> (r: Result<
        i128,
        VaultError,
    >)
        ensures
            r == self.shares_quote(*pool, assets as int, Rounding::Floor),
    {
        self.convert_assets_to_shares(e, assets, pool, Rounding::Floor)
    }

    /// The assets a mint of `shares` would pull now, rounded up.
    pub fn preview_mint(&self, e: &Env, shares: i128, pool: &PoolSnapshot) -> (r: Result<
        i128,
        VaultError,
    >)
        ensures
            r == self.assets_quote(*pool, shares as int, Rounding::Ceil),
    {
        self.convert_shares_to_assets(e, shares, pool, Rounding::Ceil)
    }

    /// The shares a withdrawal of `assets` would burn now, rounded up.
    pub fn preview_withdraw(&self, e: &Env, assets: i128, pool: &PoolSnapshot) -> (r: Result<
        i128,
        VaultError,
    >)
        ensures
            r == self.shares_quote(*pool, assets as int, Rounding::Ceil),
    {
        self.convert_assets_to_shares(e, assets, pool, Rounding::Ceil)
    }

    /// The assets a redemption of `shares` would pay out now, rounded down.
    pub fn preview_redeem(&self, e: &Env, shares: i128, pool: &PoolSnapshot) -> (r: Result<
        i128,
        VaultError,
    >)
        ensures
            r == self.assets_quote(*pool, shares as int, Rounding::Floor),
    {
        self.convert_shares_to_assets(e, shares, pool, Rounding::Floor)
    }

    /// No cap on deposits.
    pub fn max_deposit(&self, receiver: &Principal) -> (r: i128)
        ensures
            r == i128::MAX,
    {
        i128::MAX
    }

    /// No cap on mints.
    pub fn max_mint(&self, receiver: &Principal) -> (r: i128)
        ensures
            r == i128::MAX,
    {
        i128::MAX
    }

    /// The assets that `owner`'s whole balance is worth, rounded down.
    pub fn max_withdraw(&self, e: &Env, owner: &Principal, pool: &PoolSnapshot) -> (r: Result<
        i128,
        VaultError,
    >)
        requires
            self.wf(),
        ensures
            r == self.assets_quote(*pool, self.balance_of(owner@), Rounding::Floor),
    {
        let balance = self.balance(owner);
        self.convert_shares_to_assets(e, balance, pool, Rounding::Floor)
    }

    /// The shares that `owner` can redeem: its whole balance.
    pub fn max_redeem(&self, owner: &Principal) -> (r: i128)
        requires
            self.wf(),
        ensures
            r == self.balance_of(owner@),
    {
        self.balance(owner)
    }

    /// The registered depositors that hold shares, each with its balance, in the order in
    /// which they first received shares. Read afresh on every call.
    pub fn get_depositors_snapshot(&self) -> (r: Vec<(Principal, i128)>)
        requires
            self.wf(),
        ensures
            holdings(r@) == snapshot_of(
                self.depositors(),
                self.shares(),
            ),
    {
        let mut out: Vec<(Principal, i128)> = Vec::new();
        let n = self.depositors.len();
        let mut i: usize = 0;
        assert(self.depositors().take(0) =~= Seq::<Seq<char>>::empty());
        assert(holdings(out@) =~= Seq::<
            (Seq<char>, int),
        >::empty());
        while i < n
            invariant
                self.wf(),
                n == self.depositors().len(),
                i <= n,
                holdings(out@) == snapshot_of(
                    self.depositors().take(i as int),
                    self.shares(),
                ),
            decreases n - i,
        {
            let who = self.depositors.member(i);
            let balance = self.ledger.balance(who);
            let ghost before = out@;
            assert(self.depositors().take(i + 1).drop_last() =~= self.depositors().take(i as int));
            assert(self.depositors().take(i + 1).last() == who@);
            if balance > 0 {
                out.push((who.clone(), balance));
                assert(holdings(out@) =~= holdings(before).push((who@, balance as int)));
            }
            i = i + 1;
        }
        assert(self.depositors().take(n as int) =~= self.depositors());
        out
    }

    /// The lending pool that holds the vault's assets.
    pub fn get_blend_pool(&self) -> (r: Result<&Principal, VaultError>)
        ensures
            match self.configuration() {
                Some(c) => r is Ok && r->Ok_0@ == c.blend_pool@,
                None => r == Err::<&Principal, VaultError>(VaultError::NotInitialized),
            },
    {
        match &self.config {
            Some(c) => Ok(&c.blend_pool),
            None => Err(VaultError::NotInitialized),
        }
    }

    /// The reserve index of the underlying asset in the lending pool.
    pub fn get_usdc_reserve_index(&self) -> (r: Result<u32, VaultError>)
        ensures
            match self.configuration() {
                Some(c) => r == Ok::<u32, VaultError>(c.usdc_reserve_index),
                None => r == Err::<u32, VaultError>(VaultError::NotInitialized),
            },
    {
        match &self.config {
            Some(c) => Ok(c.usdc_reserve_index),
            None => Err(VaultError::NotInitialized),
        }
    }

    /// The reward token that the lending pool emits.
    pub fn get_blnd_token(&self) -> (r: Result<&Principal, VaultError>)
        ensures
            match self.configuration() {
                Some(c) => r is Ok && r->Ok_0@ == c.blnd_token@,
                None => r == Err::<&Principal, VaultError>(VaultError::NotInitialized),
            },
    {
        match &self.config {
            Some(c) => Ok(&c.blnd_token),
            None => Err(VaultError::NotInitialized),
        }
    }

    /// The reserve index under which the vault claims reward emissions.
    pub fn get_blnd_reserve_index(&self) -> (r: Result<u32, VaultError>)
        ensures
            match self.configuration() {
                Some(c) => r == Ok::<u32, VaultError>(c.blnd_reserve_index),
                None => r == Err::<u32, VaultError>(VaultError::NotInitialized),
            },
    {
        match &self.config {
            Some(c) => Ok(c.blnd_reserve_index),
            None => Err(VaultError::NotInitialized),
        }
    }

    /// The exchange pool that swaps rewards for the underlying asset.
    pub fn get_comet_pool(&self) -> (r: Result<&Principal, VaultError>)
        ensures
            match self.configuration() {
                Some(c) => r is Ok && r->Ok_0@ == c.comet_pool@,
                None => r == Err::<&Principal, VaultError>(VaultError::NotInitialized),
            },
    {
        match &self.config {
            Some(c) => Ok(&c.comet_pool),
            None => Err(VaultError::NotInitialized),
        }
    }

    /// Decimals of the share token: those of the underlying asset plus the decimals offset.
    pub fn decimals(&self, asset_decimals: u32) -> (r: Result<u32, VaultError>)
        ensures
            asset_decimals + self.offset() > u32::MAX ==> r == Err::<u32, VaultError>(
                VaultError::MathOverflow,
            ),
            asset_decimals + self.offset() <= u32::MAX ==> r == Ok::<u32, VaultError>(
                (asset_decimals + self.offset()) as u32,
            ),
    {
        match asset_decimals.checked_add(self.decimals_offset()) {
            Some(d) => Ok(d),
            None => Err(VaultError::MathOverflow),
        }
    }

    /// Name of the share token.
    pub fn name(&self) -> (r: String)
        ensures
            r@ == "BLEND VAULT"@,
    {
        "BLEND VAULT".to_owned()
    }

    /// Symbol of the share token.
    pub fn symbol(&self) -> (r: String)
        ensures
            r@ == "BV"@,
    {
        "BV".to_owned()
    }

    /// The underlying asset.
    pub fn query_asset(&self) -> (r: Result<&Principal, VaultError>)
        ensures
            match self.configuration() {
                Some(c) => r is Ok && r->Ok_0@ == c.asset@,
                None => r == Err::<&Principal, VaultError>(VaultError::NotInitialized),
            },
    {
        match &self.config {
            Some(c) => Ok(&c.asset),
            None => Err(VaultError::NotInitialized),
        }
    }

    /// The configuration, once `initialize` has recorded it.
    pub fn config(&self) -> (r: Option<&VaultConfig>)
        ensures
            match self.configuration() {
                Some(c) => r is Some && *r->Some_0 == c,
                None => r is None,
            },
    {
        match &self.config {
            Some(c) => Some(c),
            None => None,
        }
    }

    /// Every registered depositor with its balance (zero included), in registration order:
    /// with `config`, all that `restore` needs to rebuild the vault.
    pub fn accounts(&self) -> (r: Vec<(Principal, i128)>)
        ensures
            holdings(r@) == self.shares()@,
    {
        self.ledger.accounts()
    }

    /// Rebuilds a vault from a stored configuration and its accounts, as `accounts` lists
    /// them. Accounts with a repeated owner or a negative balance are refused with
    /// `InvalidAmount`; balances whose sum leaves `i128` with `MathOverflow`.
    pub fn restore(config: Option<VaultConfig>, accounts: Vec<(Principal, i128)>) -> (r: Result<
        BlendVaultContract,
        VaultError,
    >)
        ensures
            ({
                let view = holdings(accounts@);
                &&& !accounts_wf(view) ==> r == Err::<BlendVaultContract, VaultError>(
                    VaultError::InvalidAmount,
                )
                &&& accounts_wf(view) && sum_of(view) > i128::MAX ==> r == Err::<
                    BlendVaultContract,
                    VaultError,
                >(VaultError::MathOverflow)
                &&& accounts_wf(view) && sum_of(view) <= i128::MAX ==> {
                    &&& r is Ok
                    &&& r->Ok_0.wf()
                    &&& r->Ok_0.configuration() == config
                    &&& r->Ok_0.depositors() == owners_of(view)
                    &&& r->Ok_0.supply() == sum_of(view)
                    &&& forall|who: Seq<char>| #[trigger]
                        r->Ok_0.balance_of(who) == balance_in(view, who)
                }
            }),
    {
        let ghost view = holdings(accounts@);
        let n = accounts.len();
        // Check every account before crediting any.
        let mut seen = DepositorRegistry::new();
        let mut i: usize = 0;
        while i < n
            invariant
                n == accounts@.len(),
                view == holdings(accounts@),
                i <= n,
                seen.wf(),
                seen@ == owners_of(view.take(i as int)),
                accounts_wf(view.take(i as int)),
            decreases n - i,
        {
            let who = &accounts[i].0;
            assert(view.take(i + 1) =~= view.take(i as int).push(view[i as int]));
            assert(owners_of(view.take(i + 1)) =~= owners_of(view.take(i as int)).push(who@));
            if accounts[i].1 < 0 || seen.contains(who) {
                proof {
                    if accounts@[i as int].1 < 0 {
                        assert(view[i as int].1 < 0);
                    } else {
                        let k = choose|k: int|
                            0 <= k < seen@.len() && seen@[k] == who@;
                        assert(owners_of(view)[k] == owners_of(view)[i as int]);
                    }
                }
                return Err(VaultError::InvalidAmount);
            }
            seen.add(who);
            proof {
                assert forall|j: int| 0 <= j < view.take(i + 1).len() implies #[trigger] view.take(
                    i + 1,
                )[j].1 >= 0 by {
                    if j < i {
                        assert(view.take(i as int)[j] == view.take(i + 1)[j]);
                    }
                }
            }
            i = i + 1;
        }
        assert(view.take(n as int) =~= view);
        let mut vault = BlendVaultContract::new();
        let mut i: usize = 0;
        while i < n
            invariant
                n == accounts@.len(),
                view == holdings(accounts@),
                accounts_wf(view),
                i <= n,
                vault.wf(),
                !vault.initialized(),
                vault.depositors() == owners_of(view.take(i as int)),
                vault.supply() == sum_of(view.take(i as int)),
                forall|who: Seq<char>| #[trigger]
                    vault.balance_of(who) == balance_in(view.take(i as int), who),
            decreases n - i,
        {
            let who = &accounts[i].0;
            let shares = accounts[i].1;
            assert(view.take(i + 1) =~= view.take(i as int).push(view[i as int]));
            assert(view.take(i + 1).drop_last() =~= view.take(i as int));
            assert(owners_of(view.take(i + 1)) =~= owners_of(view.take(i as int)).push(who@));
            assert(!owners_of(view.take(i as int)).contains(who@)) by {
                if owners_of(view.take(i as int)).contains(who@) {
                    let k = choose|k: int|
                        0 <= k < owners_of(view.take(i as int)).len() && owners_of(
                            view.take(i as int),
                        )[k] == who@;
                    assert(owners_of(view)[k] == owners_of(view)[i as int]);
                }
            }
            proof {
                lemma_balance_absent(view.take(i as int), who@);
                assert(shares >= 0) by {
                    assert(view[i as int].1 >= 0);
                }
                crate::ledger::lemma_prefix_sum_bounded(view, i + 1);
            }
            match vault.credit(who, shares) {
                Ok(()) => {},
                Err(err) => {
                    return Err(err);
                },
            }
            i = i + 1;
        }
        assert(view.take(n as int) =~= view);
        let ghost credited_vault = vault;
        vault.config = config;
        assert forall|who: Seq<char>| #[trigger] vault.balance_of(who) == balance_in(view, who) by {
            assert(vault.shares() == credited_vault.shares());
            assert(credited_vault.balance_of(who) == balance_in(view.take(n as int), who));
        }
        Ok(vault)
    }

    /// Credits `shares` to `receiver` and registers it.
    fn credit(&mut self, receiver: &Principal, shares: i128) -> (r: Result<(), VaultError>)
        requires
            old(self).wf(),
            shares >= 0,
        ensures
            final(self).wf(),
            r is Err <==> old(self).supply() + shares > i128::MAX,
            r is Err ==> r == Err::<(), VaultError>(VaultError::MathOverflow) && *final(self)
                == *old(self),
            r is Ok ==> credited(*old(self), *final(self), receiver@, shares as int),
    {
        match self.ledger.mint(receiver, shares) {
            Ok(()) => {},
            Err(err) => {
                return Err(err);
            },
        }
        self.depositors.add(receiver);
        Ok(())
    }

    /// Deposits `assets` for `receiver`, who gets the shares they are worth, rounded down.
    ///
    /// A zero amount returns zero and changes nothing. The caller pulls the assets into the
    /// vault and supplies them to the lending pool as collateral; every failure leaves the
    /// vault as it was.
    pub fn deposit(&mut self, e: &Env, assets: i128, receiver: &Principal, pool: &PoolSnapshot) -> (r:
        Result<i128, VaultError>)
        requires
            old(self).wf(),
        ensures
            final(self).wf(),
            r == old(self).deposit_result(*pool, assets as int),
            r is Err || assets == 0 ==> *final(self) == *old(self),
            r is Ok && assets != 0 ==> credited(*old(self), *final(self), receiver@, r->Ok_0 as int),
    {
        if assets == 0 {
            return Ok(0);
        }
        if !self.is_initialized() {
            return Err(VaultError::NotInitialized);
        }
        let shares = match self.convert_assets_to_shares(e, assets, pool, Rounding::Floor) {
            Ok(s) => s,
            Err(err) => {
                return Err(err);
            },
        };
        match self.credit(receiver, shares) {
            Ok(()) => Ok(shares),
            Err(err) => Err(err),
        }
    }

    /// Mints `shares` for `receiver`, returning the assets they cost, rounded up.
    ///
    /// A zero amount returns zero and changes nothing. The caller pulls the returned assets
    /// into the vault and supplies them to the lending pool; every failure leaves the vault
    /// as it was.
    pub fn mint(&mut self, e: &Env, shares: i128, receiver: &Principal, pool: &PoolSnapshot) -> (r:
        Result<i128, VaultError>)
        requires
            old(self).wf(),
        ensures
            final(self).wf(),
            r == old(self).mint_result(*pool, shares as int),
            r is Err || shares == 0 ==> *final(self) == *old(self),
            r is Ok && shares != 0 ==> credited(*old(self), *final(self), receiver@, shares as int),
    {
        if shares == 0 {
            return Ok(0);
        }
        if !self.is_initialized() {
            return Err(VaultError::NotInitialized);
        }
        let assets = match self.convert_shares_to_assets(e, shares, pool, Rounding::Ceil) {
            Ok(a) => a,
            Err(err) => {
                return Err(err);
            },
        };
        match self.credit(receiver, shares) {
            Ok(()) => Ok(assets),
            Err(err) => Err(err),
        }
    }

    /// Withdraws `assets` on behalf of `owner`, burning the shares they are worth, rounded
    /// up; the result is that share amount.
    ///
    /// A zero amount returns zero and changes nothing. An owner with too few shares gets
    /// `InsufficientShares`, with what it holds and what was needed. The caller has the
    /// lending pool pay the assets to the receiver; every failure leaves the vault as it was.
    pub fn withdraw(&mut self, e: &Env, assets: i128, owner: &Principal, pool: &PoolSnapshot) -> (r:
        Result<i128, VaultError>)
        requires
            old(self).wf(),
        ensures
            final(self).wf(),
            r == old(self).withdraw_result(*pool, assets as int, owner@),
            r is Err || assets == 0 ==> *final(self) == *old(self),
            r is Ok && assets != 0 ==> debited(*old(self), *final(self), owner@, r->Ok_0 as int),
    {
        if assets == 0 {
            return Ok(0);
        }
        if !self.is_initialized() {
            return Err(VaultError::NotInitialized);
        }
        let shares = match self.convert_assets_to_shares(e, assets, pool, Rounding::Ceil) {
            Ok(s) => s,
            Err(err) => {
                return Err(err);
            },
        };
        match self.ledger.burn(owner, shares) {
            Ok(()) => Ok(shares),
            Err(err) => Err(err),
        }
    }

    /// Redeems `shares` of `owner`, returning the assets they are worth, rounded down.
    ///
    /// A zero amount returns zero and changes nothing. An owner with too few shares gets
    /// `InsufficientShares`. The caller has the lending pool pay the returned assets to the
    /// receiver; every failure leaves the vault as it was.
    pub fn redeem(&mut self, e: &Env, shares: i128, owner: &Principal, pool: &PoolSnapshot) -> (r:
        Result<i128, VaultError>)
        requires
            old(self).wf(),
        ensures
            final(self).wf(),
            r == old(self).redeem_result(*pool, shares as int, owner@),
            r is Err || shares == 0 ==> *final(self) == *old(self),
            r is Ok && shares != 0 ==> debited(*old(self), *final(self), owner@, shares as int),
    {
        if shares == 0 {
            return Ok(0);
        }
        if !self.is_initialized() {
            return Err(VaultError::NotInitialized);
        }
        let assets = match self.convert_shares_to_assets(e, shares, pool, Rounding::Floor) {
            Ok(a) => a,
            Err(err) => {
                return Err(err);
            },
        };
        match self.ledger.burn(owner, shares) {
            Ok(()) => Ok(assets),
            Err(err) => Err(err),
        }
    }
}

} // verus!

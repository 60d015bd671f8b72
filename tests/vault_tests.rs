use blend_vault::compound::{compound_step, CompoundAction, CompoundStage};
use blend_vault::error::VaultError;
use blend_vault::pool::{PoolSnapshot, Positions, ReserveData, BLEND_RATE_SCALAR};
use blend_vault::principal::Principal;
use blend_vault::vault::BlendVaultContract;
use soroban_sdk::Env;

const STARTING_USDC: i128 = 1_000_000_0000000;

fn principal(name: &str) -> Principal {
    Principal::new(name.to_string())
}

/// The vault together with a stand-in for the lending pool (collateral credited one for one,
/// valued at `b_rate`), the swap pool (one reward token for one unit of USDC) and the USDC
/// wallets of the test's principals.
struct Fixture {
    env: Env,
    vault: BlendVaultContract,
    collateral: i128,
    b_rate: i128,
    wallets: Vec<(String, i128)>,
    reward_per_claim: i128,
    user: Principal,
}

impl Fixture {
    fn new() -> Fixture {
        let mut vault = BlendVaultContract::new();
        vault
            .initialize(
                principal("USDC"),
                0,
                principal("BLEND_POOL"),
                0,
                principal("BLND"),
                1,
                principal("COMET_POOL"),
            )
            .unwrap();
        let mut fixture = Fixture {
            env: Env::default(),
            vault,
            collateral: 0,
            b_rate: BLEND_RATE_SCALAR,
            wallets: Vec::new(),
            reward_per_claim: 0,
            user: principal("USER"),
        };
        fixture.fund("USER", STARTING_USDC);
        fixture
    }

    fn fund(&mut self, name: &str, amount: i128) {
        self.wallets.push((name.to_string(), amount));
    }

    fn usdc_balance(&self, who: &Principal) -> i128 {
        self.wallets
            .iter()
            .find(|(n, _)| n == who.address())
            .map(|(_, b)| *b)
            .unwrap_or(0)
    }

    fn move_usdc(&mut self, who: &Principal, delta: i128) {
        match self.wallets.iter_mut().find(|(n, _)| n == who.address()) {
            Some(entry) => {
                entry.1 += delta;
                assert!(entry.1 >= 0, "insufficient USDC balance");
            }
            None => {
                assert!(delta >= 0, "insufficient USDC balance");
                self.wallets.push((who.address().clone(), delta));
            }
        }
    }

    fn pool(&self) -> PoolSnapshot {
        PoolSnapshot {
            positions: Positions {
                collateral: vec![(0, self.collateral)],
                liabilities: Vec::new(),
                supply: Vec::new(),
            },
            reserve: ReserveData {
                d_rate: BLEND_RATE_SCALAR,
                b_rate: self.b_rate,
                ir_mod: 0,
                b_supply: 0,
                d_supply: 0,
                backstop_credit: 0,
                last_time: 0,
            },
        }
    }

    fn deposit(&mut self, assets: i128, receiver: &Principal, from: &Principal) -> i128 {
        let pool = self.pool();
        let shares = self.vault.deposit(&self.env, assets, receiver, &pool).unwrap();
        if assets != 0 {
            self.move_usdc(from, -assets);
            self.collateral += assets;
        }
        shares
    }

    fn mint(&mut self, shares: i128, receiver: &Principal, from: &Principal) -> i128 {
        let pool = self.pool();
        let assets = self.vault.mint(&self.env, shares, receiver, &pool).unwrap();
        if shares != 0 {
            self.move_usdc(from, -assets);
            self.collateral += assets;
        }
        assets
    }

    fn withdraw(&mut self, assets: i128, receiver: &Principal, owner: &Principal) -> i128 {
        let pool = self.pool();
        let shares = self.vault.withdraw(&self.env, assets, owner, &pool).unwrap();
        if assets != 0 {
            self.collateral -= assets;
            self.move_usdc(receiver, assets);
        }
        shares
    }

    fn redeem(&mut self, shares: i128, receiver: &Principal, owner: &Principal) -> i128 {
        let pool = self.pool();
        let assets = self.vault.redeem(&self.env, shares, owner, &pool).unwrap();
        if shares != 0 {
            self.collateral -= assets;
            self.move_usdc(receiver, assets);
        }
        assets
    }

    fn compound(&mut self) -> i128 {
        let (mut stage, mut action) = self.vault.compound().unwrap();
        loop {
            let outcome = match action {
                CompoundAction::Claim { .. } => self.reward_per_claim,
                CompoundAction::Swap { amount_in, .. } => amount_in,
                CompoundAction::Supply { amount } => {
                    self.collateral += amount;
                    0
                }
                CompoundAction::Finish { compounded, .. } => return compounded,
            };
            let next = compound_step(stage, outcome);
            stage = next.0;
            action = next.1;
        }
    }

    fn balance(&self, who: &Principal) -> i128 {
        self.vault.balance(who)
    }

    fn total_assets(&self) -> i128 {
        self.vault.total_assets(&self.pool()).unwrap()
    }

    fn max_withdraw(&self, who: &Principal) -> i128 {
        self.vault.max_withdraw(&self.env, who, &self.pool()).unwrap()
    }

    fn snapshot_get(&self, who: &Principal) -> Option<i128> {
        self.vault
            .get_depositors_snapshot()
            .into_iter()
            .find(|(p, _)| p.address() == who.address())
            .map(|(_, b)| b)
    }
}

#[test]
fn test_initialization() {
    let fixture = Fixture::new();
    assert_eq!(fixture.vault.name(), "BLEND VAULT");
    assert_eq!(fixture.vault.symbol(), "BV");
    assert_eq!(fixture.vault.decimals(7), Ok(7));
    assert_eq!(fixture.vault.query_asset().unwrap().address(), "USDC");
    assert_eq!(fixture.vault.total_supply(), 0);
}

#[test]
fn test_deposit() {
    let mut fixture = Fixture::new();
    let user = fixture.user.clone();
    let deposit_amount = 1000_0000000;
    let shares = fixture.deposit(deposit_amount, &user, &user);
    assert_eq!(shares, deposit_amount);
    assert_eq!(fixture.balance(&user), shares);
    assert_eq!(fixture.vault.total_supply(), shares);
    assert_eq!(fixture.usdc_balance(&user), 1_000_000_0000000 - deposit_amount);
}

#[test]
fn test_multiple_deposits() {
    let mut fixture = Fixture::new();
    let user = fixture.user.clone();
    let first_deposit = 1000_0000000;
    let second_deposit = 500_0000000;
    let shares1 = fixture.deposit(first_deposit, &user, &user);
    let shares2 = fixture.deposit(second_deposit, &user, &user);
    assert_eq!(shares1 + shares2, first_deposit + second_deposit);
    assert_eq!(fixture.balance(&user), first_deposit + second_deposit);
}

#[test]
fn test_mint() {
    let mut fixture = Fixture::new();
    let user = fixture.user.clone();
    let shares_to_mint = 1000_0000000;
    let assets_deposited = fixture.mint(shares_to_mint, &user, &user);
    assert_eq!(assets_deposited, shares_to_mint);
    assert_eq!(fixture.balance(&user), shares_to_mint);
    assert_eq!(fixture.usdc_balance(&user), 1_000_000_0000000 - assets_deposited);
}

#[test]
fn test_withdraw() {
    let mut fixture = Fixture::new();
    let user = fixture.user.clone();
    let deposit_amount = 1000_0000000;
    fixture.deposit(deposit_amount, &user, &user);
    assert_eq!(fixture.balance(&user), deposit_amount);
    let withdraw_amount = 500_0000000;
    let shares_burned = fixture.withdraw(withdraw_amount, &user, &user);
    assert_eq!(shares_burned, withdraw_amount);
    assert_eq!(fixture.balance(&user), deposit_amount - shares_burned);
    assert_eq!(
        fixture.usdc_balance(&user),
        1_000_000_0000000 - deposit_amount + withdraw_amount
    );
}

#[test]
fn test_redeem() {
    let mut fixture = Fixture::new();
    let user = fixture.user.clone();
    let deposit_amount = 1000_0000000;
    let shares = fixture.deposit(deposit_amount, &user, &user);
    let shares_to_redeem = shares / 2;
    let assets_received = fixture.redeem(shares_to_redeem, &user, &user);
    assert_eq!(assets_received, shares_to_redeem);
    assert_eq!(fixture.balance(&user), shares - shares_to_redeem);
}

#[test]
fn test_full_deposit_and_withdraw_cycle() {
    let mut fixture = Fixture::new();
    let user = fixture.user.clone();
    let deposit_amount = 1000_0000000;
    let initial_balance = fixture.usdc_balance(&user);
    let shares = fixture.deposit(deposit_amount, &user, &user);
    fixture.redeem(shares, &user, &user);
    assert_eq!(fixture.usdc_balance(&user), initial_balance);
    assert_eq!(fixture.balance(&user), 0);
}

#[test]
fn test_preview_deposit() {
    let mut fixture = Fixture::new();
    let user = fixture.user.clone();
    let deposit_amount = 1000_0000000;
    let expected_shares = fixture
        .vault
        .preview_deposit(&fixture.env, deposit_amount, &fixture.pool())
        .unwrap();
    let actual_shares = fixture.deposit(deposit_amount, &user, &user);
    assert_eq!(expected_shares, actual_shares);
}

#[test]
fn test_preview_mint() {
    let mut fixture = Fixture::new();
    let user = fixture.user.clone();
    let shares_to_mint = 1000_0000000;
    let expected_assets = fixture
        .vault
        .preview_mint(&fixture.env, shares_to_mint, &fixture.pool())
        .unwrap();
    let actual_assets = fixture.mint(shares_to_mint, &user, &user);
    assert_eq!(expected_assets, actual_assets);
}

#[test]
fn test_preview_withdraw() {
    let mut fixture = Fixture::new();
    let user = fixture.user.clone();
    fixture.deposit(1000_0000000, &user, &user);
    let withdraw_amount = 500_0000000;
    let expected_shares = fixture
        .vault
        .preview_withdraw(&fixture.env, withdraw_amount, &fixture.pool())
        .unwrap();
    let actual_shares = fixture.withdraw(withdraw_amount, &user, &user);
    assert_eq!(expected_shares, actual_shares);
}

#[test]
fn test_preview_redeem() {
    let mut fixture = Fixture::new();
    let user = fixture.user.clone();
    let shares = fixture.deposit(1000_0000000, &user, &user);
    let shares_to_redeem = shares / 2;
    let expected_assets = fixture
        .vault
        .preview_redeem(&fixture.env, shares_to_redeem, &fixture.pool())
        .unwrap();
    let actual_assets = fixture.redeem(shares_to_redeem, &user, &user);
    assert_eq!(expected_assets, actual_assets);
}

#[test]
fn test_convert_to_shares() {
    let mut fixture = Fixture::new();
    let user = fixture.user.clone();
    let deposit_amount = 1000_0000000;
    let shares = fixture
        .vault
        .convert_to_shares(&fixture.env, deposit_amount, &fixture.pool())
        .unwrap();
    assert_eq!(shares, deposit_amount);
    fixture.deposit(deposit_amount, &user, &user);
    let shares2 = fixture
        .vault
        .convert_to_shares(&fixture.env, deposit_amount, &fixture.pool())
        .unwrap();
    assert_eq!(shares2, deposit_amount);
}

#[test]
fn test_convert_to_assets() {
    let mut fixture = Fixture::new();
    let user = fixture.user.clone();
    let deposit_amount = 1000_0000000;
    let shares = fixture.deposit(deposit_amount, &user, &user);
    let assets = fixture
        .vault
        .convert_to_assets(&fixture.env, shares, &fixture.pool())
        .unwrap();
    assert_eq!(assets, deposit_amount);
}

#[test]
fn test_total_assets_reflects_b_rate_growth() {
    let mut fixture = Fixture::new();
    let user = fixture.user.clone();
    let deposit_amount = 1000_0000000;
    fixture.deposit(deposit_amount, &user, &user);
    let boosted_rate = BLEND_RATE_SCALAR + 100_000_000_000;
    fixture.b_rate = boosted_rate;
    let expected_assets = deposit_amount * boosted_rate / BLEND_RATE_SCALAR;
    assert_eq!(fixture.total_assets(), expected_assets);
}

#[test]
fn test_max_deposit() {
    let fixture = Fixture::new();
    assert_eq!(fixture.vault.max_deposit(&fixture.user), i128::MAX);
}

#[test]
fn test_max_mint() {
    let fixture = Fixture::new();
    assert_eq!(fixture.vault.max_mint(&fixture.user), i128::MAX);
}

#[test]
fn test_max_withdraw() {
    let mut fixture = Fixture::new();
    let user = fixture.user.clone();
    let deposit_amount = 1000_0000000;
    assert_eq!(fixture.max_withdraw(&user), 0);
    fixture.deposit(deposit_amount, &user, &user);
    assert_eq!(fixture.max_withdraw(&user), deposit_amount);
}

#[test]
fn test_max_redeem() {
    let mut fixture = Fixture::new();
    let user = fixture.user.clone();
    assert_eq!(fixture.vault.max_redeem(&user), 0);
    let shares = fixture.deposit(1000_0000000, &user, &user);
    assert_eq!(fixture.vault.max_redeem(&user), shares);
}

#[test]
fn test_zero_deposit() {
    let mut fixture = Fixture::new();
    let user = fixture.user.clone();
    let shares = fixture.deposit(0, &user, &user);
    assert_eq!(shares, 0);
    assert_eq!(fixture.balance(&user), 0);
}

#[test]
fn test_zero_mint() {
    let mut fixture = Fixture::new();
    let user = fixture.user.clone();
    let assets = fixture.mint(0, &user, &user);
    assert_eq!(assets, 0);
    assert_eq!(fixture.balance(&user), 0);
}

#[test]
#[should_panic]
fn test_withdraw_more_than_balance() {
    let mut fixture = Fixture::new();
    let user = fixture.user.clone();
    let deposit_amount = 1000_0000000;
    fixture.deposit(deposit_amount, &user, &user);
    fixture.withdraw(deposit_amount + 1, &user, &user);
}

#[test]
#[should_panic]
fn test_redeem_more_than_shares() {
    let mut fixture = Fixture::new();
    let user = fixture.user.clone();
    let shares = fixture.deposit(1000_0000000, &user, &user);
    fixture.redeem(shares + 1, &user, &user);
}

#[test]
fn test_total_assets_empty() {
    let fixture = Fixture::new();
    assert_eq!(fixture.total_assets(), 0);
}

#[test]
fn test_total_assets_after_deposit() {
    let mut fixture = Fixture::new();
    let user = fixture.user.clone();
    let deposit_amount = 1000_0000000;
    fixture.deposit(deposit_amount, &user, &user);
    assert_eq!(fixture.total_assets(), deposit_amount);
}

#[test]
fn test_multiple_users_deposit() {
    let mut fixture = Fixture::new();
    let user = fixture.user.clone();
    let user2 = principal("USER2");
    fixture.fund("USER2", 1_000_000_0000000);
    let shares1 = fixture.deposit(1000_0000000, &user, &user);
    let shares2 = fixture.deposit(2000_0000000, &user2, &user2);
    assert_eq!(fixture.balance(&user), shares1);
    assert_eq!(fixture.balance(&user2), shares2);
    assert_eq!(fixture.vault.total_supply(), shares1 + shares2);
}

#[test]
fn test_compound_with_rewards() {
    let mut fixture = Fixture::new();
    let user = fixture.user.clone();
    fixture.deposit(1000_0000000, &user, &user);
    fixture.reward_per_claim = 1000_0000000;
    let usdc_deposited = fixture.compound();
    assert!(usdc_deposited > 0);
}

#[test]
fn test_compound_with_real_comet_contract() {
    let mut fixture = Fixture::new();
    let user = fixture.user.clone();
    fixture.deposit(1_500_0000000, &user, &user);
    fixture.reward_per_claim = 12_0000000;
    let compounded = fixture.compound();
    assert!(compounded > 0, "compound should deposit USDC after swap");
}

#[test]
fn test_compound_with_rewards_then_withdraw() {
    let mut fixture = Fixture::new();
    let user = fixture.user.clone();
    fixture.deposit(2_000_0000000, &user, &user);
    fixture.reward_per_claim = 1000_0000000;
    fixture.compound();
    let balance_before = fixture.usdc_balance(&user);
    let max_withdraw = fixture.max_withdraw(&user);
    fixture.withdraw(max_withdraw, &user, &user);
    let balance_after = fixture.usdc_balance(&user);
    assert!(
        balance_after > balance_before,
        "withdrawal after compounding should increase user balance"
    );
}

#[test]
fn test_compound_without_rewards() {
    let mut fixture = Fixture::new();
    let user = fixture.user.clone();
    fixture.deposit(1_000_0000000, &user, &user);
    let usdc_deposited = fixture.compound();
    assert_eq!(usdc_deposited, 0);
}

#[test]
fn test_deposit_different_receiver() {
    let mut fixture = Fixture::new();
    let user = fixture.user.clone();
    let receiver = principal("RECEIVER");
    let deposit_amount = 1000_0000000;
    let shares = fixture.deposit(deposit_amount, &receiver, &user);
    assert_eq!(fixture.balance(&receiver), shares);
    assert_eq!(fixture.usdc_balance(&user), 1_000_000_0000000 - deposit_amount);
    assert_eq!(fixture.balance(&user), 0);
}

#[test]
fn test_withdraw_different_receiver() {
    let mut fixture = Fixture::new();
    let user = fixture.user.clone();
    let receiver = principal("RECEIVER");
    fixture.deposit(1000_0000000, &user, &user);
    let initial_receiver_balance = fixture.usdc_balance(&receiver);
    let withdraw_amount = 500_0000000;
    fixture.withdraw(withdraw_amount, &receiver, &user);
    assert_eq!(
        fixture.usdc_balance(&receiver),
        initial_receiver_balance + withdraw_amount
    );
}

#[test]
fn test_depositors_snapshot() {
    let mut fixture = Fixture::new();
    let user = fixture.user.clone();
    assert_eq!(fixture.vault.get_depositors_snapshot().len(), 0);
    let user2 = principal("USER2");
    let user3 = principal("USER3");
    fixture.fund("USER2", 1_000_000_0000000);
    fixture.fund("USER3", 1_000_000_0000000);

    let deposit1 = 1000_0000000;
    fixture.deposit(deposit1, &user, &user);
    assert_eq!(fixture.vault.get_depositors_snapshot().len(), 1);
    assert_eq!(fixture.snapshot_get(&user).unwrap(), deposit1);

    let deposit2 = 2000_0000000;
    fixture.deposit(deposit2, &user2, &user2);
    assert_eq!(fixture.vault.get_depositors_snapshot().len(), 2);
    assert_eq!(fixture.snapshot_get(&user).unwrap(), deposit1);
    assert_eq!(fixture.snapshot_get(&user2).unwrap(), deposit2);

    let shares3 = 3000_0000000;
    fixture.mint(shares3, &user3, &user3);
    assert_eq!(fixture.vault.get_depositors_snapshot().len(), 3);
    assert_eq!(fixture.snapshot_get(&user).unwrap(), deposit1);
    assert_eq!(fixture.snapshot_get(&user2).unwrap(), deposit2);
    assert_eq!(fixture.snapshot_get(&user3).unwrap(), shares3);

    fixture.redeem(deposit1, &user, &user);
    assert_eq!(fixture.vault.get_depositors_snapshot().len(), 2);
    assert!(fixture.snapshot_get(&user).is_none());
    assert_eq!(fixture.snapshot_get(&user2).unwrap(), deposit2);
    assert_eq!(fixture.snapshot_get(&user3).unwrap(), shares3);
}

#[test]
fn test_depositors_snapshot_no_duplicates() {
    let mut fixture = Fixture::new();
    let user = fixture.user.clone();
    let deposit1 = 1000_0000000;
    fixture.deposit(deposit1, &user, &user);
    let deposit2 = 500_0000000;
    fixture.deposit(deposit2, &user, &user);
    assert_eq!(fixture.vault.get_depositors_snapshot().len(), 1);
    assert_eq!(fixture.snapshot_get(&user).unwrap(), deposit1 + deposit2);
}

#[test]
fn test_is_initialized() {
    let mut vault = BlendVaultContract::new();
    assert_eq!(vault.is_initialized(), false);
    vault
        .initialize(
            principal("USDC"),
            0,
            principal("BLEND_POOL"),
            0,
            principal("BLND"),
            1,
            principal("COMET_POOL"),
        )
        .unwrap();
    assert_eq!(vault.is_initialized(), true);
}

#[test]
#[should_panic(expected = "Contract is already initialized")]
fn test_double_initialization() {
    let mut vault = BlendVaultContract::new();
    vault
        .initialize(
            principal("USDC"),
            0,
            principal("BLEND_POOL"),
            0,
            principal("BLND"),
            1,
            principal("COMET_POOL"),
        )
        .expect("first initialization");
    vault
        .initialize(
            principal("USDC"),
            0,
            principal("BLEND_POOL"),
            0,
            principal("BLND"),
            1,
            principal("COMET_POOL"),
        )
        .expect("Contract is already initialized");
}

#[test]
fn test_exact_user_scenario_reported() {
    let mut fixture = Fixture::new();
    let user1 = fixture.user.clone();
    let user2 = principal("USER2");
    fixture.fund("USER2", 10_0000000);
    let deposit1 = 1_0000;
    fixture.deposit(deposit1, &user1, &user1);
    let deposit2 = 1_0000000;
    fixture.deposit(deposit2, &user2, &user2);
    let deposit3 = 1_0000;
    fixture.deposit(deposit3, &user1, &user1);
    assert_eq!(fixture.max_withdraw(&user1), deposit1 + deposit3);
    assert_eq!(fixture.max_withdraw(&user2), deposit2);
    assert_eq!(fixture.total_assets(), deposit1 + deposit2 + deposit3);
}

#[test]
fn test_small_and_large_deposits_precision() {
    let mut fixture = Fixture::new();
    let user1 = fixture.user.clone();
    let user2 = principal("USER2");
    fixture.fund("USER2", 1_000_000_0000000);
    let tiny_deposit = 1;
    fixture.deposit(tiny_deposit, &user1, &user1);
    fixture.deposit(100_000_0000000, &user2, &user2);
    fixture.deposit(tiny_deposit, &user1, &user1);
    assert_eq!(fixture.max_withdraw(&user1), tiny_deposit + tiny_deposit);
}

#[test]
fn test_max_withdraw_matches_share_value() {
    let mut fixture = Fixture::new();
    let user1 = fixture.user.clone();
    let user2 = principal("USER2");
    fixture.fund("USER2", 10_000_0000000);
    let deposit1 = 100_0000000;
    fixture.deposit(deposit1, &user1, &user1);
    let deposit2 = 500_0000000;
    fixture.deposit(deposit2, &user2, &user2);
    let deposit3 = 50_0000000;
    fixture.deposit(deposit3, &user1, &user1);
    let user1_max_withdraw = fixture.max_withdraw(&user1);
    let user2_max_withdraw = fixture.max_withdraw(&user2);
    assert_eq!(user1_max_withdraw, deposit1 + deposit3);
    assert_eq!(user2_max_withdraw, deposit2);
    assert_eq!(user1_max_withdraw + user2_max_withdraw, fixture.total_assets());
}

#[test]
fn test_total_assets_matches_blend_pool() {
    let mut fixture = Fixture::new();
    let user = fixture.user.clone();
    let deposit_amount = 1000_0000000;
    fixture.deposit(deposit_amount, &user, &user);
    let total_assets = fixture.total_assets();
    let blend_collateral = fixture.collateral;
    assert_eq!(total_assets, blend_collateral);
    assert_eq!(total_assets, deposit_amount);
}

#[test]
fn test_share_price_consistency() {
    let mut fixture = Fixture::new();
    let user1 = fixture.user.clone();
    let user2 = principal("USER2");
    let user3 = principal("USER3");
    fixture.fund("USER2", 10_000_0000000);
    fixture.fund("USER3", 10_000_0000000);
    let deposit1 = 100_0000000;
    fixture.deposit(deposit1, &user1, &user1);
    let shares1 = fixture.balance(&user1);
    assert_eq!(shares1, deposit1);
    let deposit2 = 100_0000000;
    fixture.deposit(deposit2, &user2, &user2);
    let shares2 = fixture.balance(&user2);
    assert_eq!(shares2, deposit2);
    let deposit3 = 250_0000000;
    fixture.deposit(deposit3, &user3, &user3);
    let shares3 = fixture.balance(&user3);
    assert_eq!(shares3, deposit3);
    let pool = fixture.pool();
    assert_eq!(fixture.vault.convert_to_assets(&fixture.env, shares1, &pool), Ok(deposit1));
    assert_eq!(fixture.vault.convert_to_assets(&fixture.env, shares2, &pool), Ok(deposit2));
    assert_eq!(fixture.vault.convert_to_assets(&fixture.env, shares3, &pool), Ok(deposit3));
}

#[test]
fn test_sequential_deposits_and_withdrawals() {
    let mut fixture = Fixture::new();
    let user1 = fixture.user.clone();
    let user2 = principal("USER2");
    fixture.fund("USER2", 10_000_0000000);
    let deposit1 = 100_0000000;
    fixture.deposit(deposit1, &user1, &user1);
    let deposit2 = 200_0000000;
    fixture.deposit(deposit2, &user2, &user2);
    let withdraw1 = 50_0000000;
    fixture.withdraw(withdraw1, &user1, &user1);
    let deposit3 = 25_0000000;
    fixture.deposit(deposit3, &user1, &user1);
    let expected_user1 = deposit1 + deposit3 - withdraw1;
    assert_eq!(fixture.max_withdraw(&user1), expected_user1);
    assert_eq!(fixture.max_withdraw(&user2), deposit2);
    assert_eq!(fixture.total_assets(), expected_user1 + deposit2);
}

#[test]
fn test_convert_functions_bidirectional() {
    let mut fixture = Fixture::new();
    let user = fixture.user.clone();
    fixture.deposit(1000_0000000, &user, &user);
    let pool = fixture.pool();
    for &assets in &[1_0000000i128, 10_0000000, 100_0000000, 1_0000, 999_9999999] {
        let shares = fixture.vault.convert_to_shares(&fixture.env, assets, &pool).unwrap();
        let assets_back = fixture.vault.convert_to_assets(&fixture.env, shares, &pool).unwrap();
        assert!(
            (assets_back - assets).abs() <= 1,
            "Round-trip conversion should preserve value: {} -> {} -> {}",
            assets,
            shares,
            assets_back
        );
    }
}

#[test]
fn test_multiple_small_deposits_accumulate() {
    let mut fixture = Fixture::new();
    let user = fixture.user.clone();
    let small_deposit = 1_0000000;
    let num_deposits = 10;
    for _ in 0..num_deposits {
        fixture.deposit(small_deposit, &user, &user);
    }
    let expected_total = small_deposit * num_deposits;
    assert_eq!(fixture.max_withdraw(&user), expected_total);
    assert_eq!(fixture.total_assets(), expected_total);
}

#[test]
fn test_zero_balance_user_max_withdraw() {
    let mut fixture = Fixture::new();
    let user = fixture.user.clone();
    let user_with_no_deposit = principal("NOBODY");
    fixture.deposit(100_0000000, &user, &user);
    assert_eq!(fixture.max_withdraw(&user_with_no_deposit), 0);
}

#[test]
fn test_fractional_share_values() {
    let mut fixture = Fixture::new();
    let user1 = fixture.user.clone();
    let user2 = principal("USER2");
    let user3 = principal("USER3");
    fixture.fund("USER2", 10_000_0000000);
    fixture.fund("USER3", 10_000_0000000);
    fixture.deposit(333_0000000, &user1, &user1);
    fixture.deposit(333_0000000, &user2, &user2);
    fixture.deposit(334_0000000, &user3, &user3);
    assert_eq!(fixture.total_assets(), 1000_0000000);
    assert_eq!(fixture.max_withdraw(&user1), 333_0000000);
    assert_eq!(fixture.max_withdraw(&user2), 333_0000000);
    assert_eq!(fixture.max_withdraw(&user3), 334_0000000);
}

#[test]
fn test_preview_functions_match_actual() {
    let mut fixture = Fixture::new();
    let user = fixture.user.clone();
    let deposit_amount = 100_0000000;
    let previewed_shares = fixture
        .vault
        .preview_deposit(&fixture.env, deposit_amount, &fixture.pool())
        .unwrap();
    let actual_shares = fixture.deposit(deposit_amount, &user, &user);
    assert_eq!(previewed_shares, actual_shares);
    let withdraw_amount = 50_0000000;
    let previewed_burn = fixture
        .vault
        .preview_withdraw(&fixture.env, withdraw_amount, &fixture.pool())
        .unwrap();
    let actual_burn = fixture.withdraw(withdraw_amount, &user, &user);
    assert_eq!(previewed_burn, actual_burn);
}

#[test]
fn withdraw_error_reports_held_and_needed_shares() {
    let mut fixture = Fixture::new();
    let user = fixture.user.clone();
    fixture.deposit(1000_0000000, &user, &user);
    let pool = fixture.pool();
    let result = fixture.vault.withdraw(&fixture.env, 1000_0000001, &user, &pool);
    assert_eq!(
        result,
        Err(VaultError::InsufficientShares { available: 1000_0000000, required: 1000_0000001 })
    );
    assert_eq!(fixture.balance(&user), 1000_0000000);
    assert_eq!(fixture.vault.total_supply(), 1000_0000000);
}

#[test]
fn harvest_stops_when_swap_yields_nothing() {
    let (stage, action) = compound_step(CompoundStage::Claiming, 50);
    assert_eq!(
        action,
        CompoundAction::Swap { amount_in: 50, min_amount_out: 0, max_price: i128::MAX }
    );
    let (stage, action) = compound_step(stage, 0);
    assert_eq!(stage, CompoundStage::Done { compounded: 0 });
    assert_eq!(action, CompoundAction::Finish { compounded: 0, event: None });
}

use carrot_amm::errors::{CarrotAmmError, LoadError};
use carrot_amm::fee::Fee;
use carrot_amm::pubkey::Pubkey;
use carrot_amm::state::{get_asset_state_by_id, Asset, AssetState, StrategyRecord, Vault};

fn key(b: u8) -> Pubkey {
    Pubkey::new_from_array([b; 32])
}

fn fee(redemption_fee_bps: u16, management_fee_bps: u16, performance_fee_bps: u16) -> Fee {
    Fee {
        redemption_fee_bps,
        redemption_fee_accumulated: 3,
        management_fee_bps,
        management_fee_last_update: 0,
        management_fee_accumulated: 5,
        performance_fee_bps,
    }
}

fn state(asset_id: u16, ata_amount: u64, oracle_price_expo: i32) -> AssetState {
    AssetState {
        asset_id,
        mint: key(asset_id as u8),
        mint_decimals: 6,
        ata_amount,
        oracle_price: 100_000_000,
        oracle_price_expo,
    }
}

fn asset(asset_id: u16, mint: u8) -> Asset {
    Asset { asset_id, mint: key(mint), decimals: 6, ata: key(100), oracle: key(101) }
}

fn strategy(asset_id: u16, balance: u64, net_earnings: i64) -> StrategyRecord {
    StrategyRecord { strategy_id: 9, asset_id, balance, net_earnings }
}

fn vault(assets: Vec<Asset>, strategies: Vec<StrategyRecord>) -> Vault {
    Vault {
        authority: key(1),
        shares: key(2),
        fee: fee(50, 100, 1000),
        paused: false,
        asset_index: 0,
        strategy_index: 0,
        assets,
        strategies,
    }
}

#[test]
fn redemption_fee_split() {
    let f = fee(50, 0, 0);
    assert_eq!(f.calculate_redemption_fee(10_000), Ok((9_950, 50)));
    assert_eq!(f.calculate_redemption_fee(1), Ok((0, 1)));
    assert_eq!(f.calculate_redemption_fee(0), Ok((0, 0)));
    let (rest, cut) = f.calculate_redemption_fee(123_457).unwrap();
    assert_eq!(rest + cut, 123_457);
}

#[test]
fn redemption_fee_zero_bps() {
    assert_eq!(fee(0, 0, 0).calculate_redemption_fee(u64::MAX), Ok((u64::MAX, 0)));
}

#[test]
fn redemption_fee_errors() {
    assert_eq!(fee(20_000, 0, 0).calculate_redemption_fee(100), Err(CarrotAmmError::InvalidTokenCalculation));
    assert_eq!(fee(2, 0, 0).calculate_redemption_fee(u64::MAX), Err(CarrotAmmError::InvalidTokenCalculation));
}

#[test]
fn shares_adjusted_by_fees() {
    let f = fee(0, 0, 0);
    assert_eq!(f.adjust_shares_by_fees(1000, 10), Ok(1018));
    assert_eq!(f.adjust_shares_by_fees(u64::MAX - 8, 1), Err(CarrotAmmError::InvalidTokenCalculation));
    assert_eq!(f.adjust_shares_by_fees(u64::MAX - 9, 1), Ok(u64::MAX));
}

#[test]
fn management_fee_over_a_year() {
    let mut f = fee(0, 100, 0);
    // 1% of 1000 USD over a year is 10 USD; at 10^9 shares for 1000 USD that is 10^7 shares
    assert_eq!(f.calculate_management_fee(31_557_600, 1_000_000_000_000, 1_000_000_000, 6), Ok(10_000_000));
    // the shares are added to the accumulated store (which held 5)
    assert_eq!(f.management_fee_accumulated, 10_000_005);
    assert_eq!(f.management_fee_last_update, 0);
    assert_eq!(f.redemption_fee_accumulated, 3);
}

#[test]
fn management_fee_accrues_into_the_store() {
    let mut f = Fee {
        redemption_fee_bps: 0,
        redemption_fee_accumulated: 0,
        management_fee_bps: 10_000,
        management_fee_last_update: 0,
        management_fee_accumulated: 0,
        performance_fee_bps: 0,
    };
    assert_eq!(f.calculate_management_fee(100, 31_557_600, 1, 0), Ok(1));
    assert_eq!(f.management_fee_accumulated, 1);
    assert_eq!(f.calculate_management_fee(100, 31_557_600, 1, 0), Ok(1));
    assert_eq!(f.management_fee_accumulated, 2);
    // nothing accrues within a minute
    assert_eq!(f.calculate_management_fee(60, 31_557_600, 1, 0), Ok(0));
    assert_eq!(f.management_fee_accumulated, 2);
}

#[test]
fn management_fee_store_overflow() {
    let mut f = fee(0, 10_000, 0);
    f.management_fee_accumulated = u64::MAX;
    assert_eq!(f.calculate_management_fee(100, 31_557_600, 1, 0), Err(CarrotAmmError::InvalidFeeCalculation));
    assert_eq!(f.management_fee_accumulated, u64::MAX);
    // a failed computation leaves the store unchanged
    let mut g = fee(0, 1, 0);
    assert_eq!(g.calculate_management_fee(1_000, u128::MAX, 1_000, 6), Err(CarrotAmmError::InvalidFeeCalculation));
    assert_eq!(g.management_fee_accumulated, 5);
}

#[test]
fn management_fee_needs_a_minute() {
    let mut f = fee(0, 100, 0);
    assert_eq!(f.calculate_management_fee(60, 1_000_000_000_000, 1_000_000_000, 6), Ok(0));
    assert_eq!(f.calculate_management_fee(-5, 1_000_000_000_000, 1_000_000_000, 6), Ok(0));
}

#[test]
fn management_fee_rounds_to_zero() {
    // 10_000 * 100 / 10_000 = 100; 100 * 61 / 31_557_600 = 0
    assert_eq!(fee(0, 100, 0).calculate_management_fee(61, 10_000, 1_000, 6), Ok(0));
    assert_eq!(fee(0, 100, 0).calculate_management_fee(1_000, 0, 1_000, 6), Ok(0));
}

#[test]
fn management_fee_errors() {
    assert_eq!(
        fee(0, 1, 0).calculate_management_fee(1_000, u128::MAX, 1_000, 6),
        Err(CarrotAmmError::InvalidFeeCalculation)
    );
    assert_eq!(
        fee(0, 10_000, 0).calculate_management_fee(i64::MAX, u128::MAX / 20_000, 1_000, 6),
        Err(CarrotAmmError::InvalidFeeCalculation)
    );
    // no shares exist: the vault mints 100 whole shares
    assert_eq!(
        fee(0, 100, 0).calculate_management_fee(31_557_600, 1_000_000_000_000, 0, 9),
        Ok(100_000_000_000)
    );
    // with 18 decimals 100 whole shares do not fit a u64
    assert_eq!(
        fee(0, 100, 0).calculate_management_fee(31_557_600, 1_000_000_000_000, 0, 18),
        Err(CarrotAmmError::InvalidTokenCalculation)
    );
}

#[test]
fn performance_fee_on_earnings() {
    let f = fee(0, 0, 1000);
    // 1 token at 1 USD; 10% fee is 0.1 USD; shares: ceil(10^8 * 10^9 / 10^12)
    assert_eq!(f.calculate_performance_fee(1_000_000, (100_000_000, -8, 6), 1_000_000_000, 6, 1_000_000_000_000), Ok(100_000));
}

#[test]
fn performance_fee_without_earnings() {
    let f = fee(0, 0, 1000);
    assert_eq!(f.calculate_performance_fee(0, (100_000_000, -8, 6), 1, 6, 1), Ok(0));
    assert_eq!(f.calculate_performance_fee(-5, (100_000_000, 0, 6), 1, 6, 1), Ok(0));
}

#[test]
fn performance_fee_errors() {
    let f = fee(0, 0, 1000);
    assert_eq!(
        f.calculate_performance_fee(1, (100_000_000, 0, 6), 1, 6, 1),
        Err(CarrotAmmError::InvalidTokenCalculation)
    );
    assert_eq!(
        fee(0, 0, u16::MAX).calculate_performance_fee(i64::MAX, (i64::MAX, -1, 9), 1, 6, 1),
        Err(CarrotAmmError::InvalidFeeCalculation)
    );
}

#[test]
fn asset_state_lookup_takes_the_first_match() {
    let states = [state(1, 10, -8), state(2, 20, -8), state(2, 30, -8)];
    assert_eq!(get_asset_state_by_id(&states, 2).unwrap().ata_amount, 20);
    assert_eq!(get_asset_state_by_id(&states, 1).unwrap().ata_amount, 10);
    assert_eq!(get_asset_state_by_id(&states, 3).err(), Some(CarrotAmmError::AssetNotFound));
}

#[test]
fn asset_lookup_by_mint() {
    let v = vault(vec![asset(1, 7), asset(2, 8), asset(3, 8)], vec![]);
    assert_eq!(v.get_asset_by_mint(key(8)).unwrap().asset_id, 2);
    assert_eq!(v.get_asset_by_mint(key(7)).unwrap().asset_id, 1);
    assert_eq!(v.get_asset_by_mint(key(9)).err(), Some(CarrotAmmError::AssetNotFound));
}

#[test]
fn tvl_sums_strategies_and_reserves() {
    let v = vault(vec![asset(1, 7)], vec![strategy(1, 500_000, 0)]);
    let states = [state(1, 1_000_000, -8)];
    assert!(v.check_tvl_sums_fit(&states, false));
    assert_eq!(v.get_tvl(&states, false), Ok(1_500_000_000));
    assert_eq!(v.get_tvl(&states, true), Ok(1_500_000_000));
}

#[test]
fn tvl_errors() {
    let v = vault(vec![asset(1, 7)], vec![strategy(2, 500_000, 0)]);
    assert_eq!(v.get_tvl(&[state(1, 1, -8)], false), Err(CarrotAmmError::AssetNotFound));
    let v = vault(vec![asset(1, 7)], vec![strategy(1, 500_000, 0)]);
    assert_eq!(v.get_tvl(&[state(1, 1, 0)], false), Err(CarrotAmmError::InvalidTokenCalculation));
}

#[test]
fn tvl_sum_overflow() {
    let huge = AssetState {
        asset_id: 1,
        mint: key(1),
        mint_decimals: 9,
        ata_amount: u64::MAX,
        oracle_price: i64::MAX,
        oracle_price_expo: -1,
    };
    // each balance is about 2^127 / 10; thirty of them overflow a u128
    let strategies = (0..30).map(|_| strategy(1, u64::MAX, 0)).collect();
    let v = vault(vec![], strategies);
    assert!(!v.check_tvl_sums_fit(&[huge], false));
    // a later failure wins over the overflow
    let mut strategies: Vec<StrategyRecord> = (0..30).map(|_| strategy(1, u64::MAX, 0)).collect();
    strategies.push(strategy(5, 1, 0));
    let v = vault(vec![], strategies);
    assert!(v.check_tvl_sums_fit(&[huge], false));
    assert_eq!(v.get_tvl(&[huge], false), Err(CarrotAmmError::AssetNotFound));
    // the two sums fit but not their total
    let v = vault((0..12).map(|_| asset(1, 1)).collect(), (0..12).map(|_| strategy(1, u64::MAX, 0)).collect());
    assert!(v.check_tvl_sums_fit(&[huge], false));
    assert_eq!(v.get_tvl(&[huge], false), Err(CarrotAmmError::InvalidTokenCalculation));
}

#[test]
fn accumulated_performance_fee() {
    let v = vault(vec![], vec![strategy(1, 0, 1_000_000), strategy(1, 0, -3), strategy(1, 0, 1_000_000)]);
    let states = [state(1, 0, -8)];
    assert_eq!(v.calculate_accumulated_performance_fee(&states, 1_000_000_000, 6, 1_000_000_000_000), Ok(200_000));
    let v = vault(vec![], vec![strategy(1, 0, 1), strategy(4, 0, 1)]);
    assert_eq!(
        v.calculate_accumulated_performance_fee(&states, 1_000_000_000, 6, 1_000_000_000_000),
        Err(CarrotAmmError::AssetNotFound)
    );
    let v = vault(vec![], vec![strategy(1, 0, 1_000_000), strategy(1, 0, 1_000_000)]);
    assert_eq!(
        v.calculate_accumulated_performance_fee(&states, u64::MAX, 6, 1),
        Err(CarrotAmmError::InvalidFeeCalculation)
    );
}

fn fee_bytes() -> Vec<u8> {
    let mut b = Vec::new();
    b.extend_from_slice(&25u16.to_le_bytes());
    b.extend_from_slice(&1_000u64.to_le_bytes());
    b.extend_from_slice(&200u16.to_le_bytes());
    b.extend_from_slice(&(-7i64).to_le_bytes());
    b.extend_from_slice(&u64::MAX.to_le_bytes());
    b.extend_from_slice(&1500u16.to_le_bytes());
    b
}

fn asset_bytes(asset_id: u16) -> Vec<u8> {
    let mut b = Vec::new();
    b.extend_from_slice(&asset_id.to_le_bytes());
    b.extend_from_slice(&[3u8; 32]);
    b.push(6);
    b.extend_from_slice(&[4u8; 32]);
    b.extend_from_slice(&[5u8; 32]);
    b
}

fn strategy_bytes(strategy_id: u16, asset_id: u16, balance: u64, net_earnings: i64) -> Vec<u8> {
    let mut b = Vec::new();
    b.extend_from_slice(&strategy_id.to_le_bytes());
    b.extend_from_slice(&asset_id.to_le_bytes());
    b.extend_from_slice(&balance.to_le_bytes());
    b.extend_from_slice(&net_earnings.to_le_bytes());
    b
}

#[test]
fn fee_record_decodes() {
    let b = fee_bytes();
    assert_eq!(b.len(), Fee::SPACE);
    let f = Fee::load(&b).unwrap();
    assert_eq!(f.redemption_fee_bps, 25);
    assert_eq!(f.redemption_fee_accumulated, 1_000);
    assert_eq!(f.management_fee_bps, 200);
    assert_eq!(f.management_fee_last_update, -7);
    assert_eq!(f.management_fee_accumulated, u64::MAX);
    assert_eq!(f.performance_fee_bps, 1500);
}

#[test]
fn strategy_record_decodes() {
    let b = strategy_bytes(0x0102, 0x0304, 0x0506_0708_090a_0b0c, i64::MIN + 1);
    assert_eq!(b.len(), StrategyRecord::SPACE);
    let s = StrategyRecord::load(&b).unwrap();
    assert_eq!(s.strategy_id, 0x0102);
    assert_eq!(s.asset_id, 0x0304);
    assert_eq!(s.balance, 0x0506_0708_090a_0b0c);
    assert_eq!(s.net_earnings, i64::MIN + 1);
}

#[test]
fn asset_record_decodes() {
    let b = asset_bytes(513);
    assert_eq!(b.len(), Asset::SPACE);
    let a = Asset::load(&b).unwrap();
    assert_eq!(a.asset_id, 513);
    assert!(a.mint == Pubkey::new_from_array([3u8; 32]));
    assert_eq!(a.decimals, 6);
    assert_eq!(a.ata.to_bytes(), [4u8; 32]);
    assert_eq!(a.oracle.to_bytes(), [5u8; 32]);
}

fn vault_bytes() -> Vec<u8> {
    let mut b = vec![0xaa; 8];
    b.extend_from_slice(&[1u8; 32]);
    b.extend_from_slice(&[2u8; 32]);
    b.extend_from_slice(&fee_bytes());
    b.push(1);
    b.extend_from_slice(&3u16.to_le_bytes());
    b.extend_from_slice(&4u16.to_le_bytes());
    b.extend_from_slice(&2u32.to_le_bytes());
    b.extend_from_slice(&asset_bytes(10));
    b.extend_from_slice(&asset_bytes(11));
    b.extend_from_slice(&1u32.to_le_bytes());
    b.extend_from_slice(&strategy_bytes(7, 10, 99, -1));
    b
}

#[test]
fn vault_account_decodes() {
    let b = vault_bytes();
    assert!(Vault::fits(&b));
    let v = Vault::load(&b).unwrap();
    assert_eq!(v.authority.to_bytes(), [1u8; 32]);
    assert_eq!(v.shares.to_bytes(), [2u8; 32]);
    assert_eq!(v.fee.performance_fee_bps, 1500);
    assert!(v.paused);
    assert_eq!(v.asset_index, 3);
    assert_eq!(v.strategy_index, 4);
    assert_eq!(v.assets.len(), 2);
    assert_eq!(v.assets[0].asset_id, 10);
    assert_eq!(v.assets[1].asset_id, 11);
    assert_eq!(v.strategies.len(), 1);
    assert_eq!(v.strategies[0].strategy_id, 7);
    assert_eq!(v.strategies[0].balance, 99);
    assert_eq!(v.strategies[0].net_earnings, -1);
    // trailing bytes are ignored
    let mut longer = b.clone();
    longer.extend_from_slice(&[0u8; 5]);
    assert_eq!(Vault::load(&longer).unwrap().strategies.len(), 1);
}

#[test]
fn vault_account_too_short() {
    let b = vault_bytes();
    assert!(!Vault::fits(&b[..b.len() - 1]));
    assert!(!Vault::fits(&b[..110]));
    assert!(!Vault::fits(&b[..200]));
    let mut huge = b.clone();
    huge[107..111].copy_from_slice(&u32::MAX.to_le_bytes());
    assert!(!Vault::fits(&huge));
}

#[test]
fn load_error_variant() {
    assert_eq!(LoadError::UnknownVerificationLevel, LoadError::UnknownVerificationLevel);
}

#[test]
fn tvl_rounded_up_is_at_least_tvl_rounded_down() {
    let odd = AssetState {
        asset_id: 1,
        mint: key(1),
        mint_decimals: 6,
        ata_amount: 7,
        oracle_price: 333_333_333,
        oracle_price_expo: -8,
    };
    let v = vault(vec![asset(1, 1)], vec![strategy(1, 11, 0), strategy(1, 13, 0)]);
    let down = v.get_tvl(&[odd], false).unwrap();
    let up = v.get_tvl(&[odd], true).unwrap();
    assert!(down <= up);
    assert_eq!((down, up), (103_332, 103_335));
}

#[test]
fn performance_fee_grows_with_earnings() {
    let f = fee(0, 0, 1000);
    let mut last = 0;
    for earnings in [-10i64, 0, 1, 999, 1_000_000, 7_777_777] {
        let shares = f
            .calculate_performance_fee(earnings, (123_456_789, -8, 6), 1_000_000_000, 6, 1_000_000_000_000)
            .unwrap();
        assert!(shares >= last);
        last = shares;
    }
}

#[test]
fn management_fee_grows_with_time() {
    let f = fee(0, 100, 0);
    let mut last = 0;
    for now in [0i64, 60, 61, 3_600, 86_400, 31_557_600, 63_115_200] {
        let mut g = f;
        let shares = g.calculate_management_fee(now, 1_000_000_000_000, 1_000_000_000, 6).unwrap();
        assert!(shares >= last);
        last = shares;
    }
    assert_eq!(last, 20_000_000);
}

#[test]
fn tvl_rounding_gap_is_at_most_one_per_balance() {
    let odd = AssetState {
        asset_id: 1,
        mint: key(1),
        mint_decimals: 6,
        ata_amount: 7,
        oracle_price: 333_333_333,
        oracle_price_expo: -8,
    };
    let v = vault(vec![asset(1, 1)], vec![strategy(1, 11, 0), strategy(1, 13, 0)]);
    let down = v.get_tvl(&[odd], false).unwrap();
    let up = v.get_tvl(&[odd], true).unwrap();
    assert!(up <= down + 3);
}

#[test]
fn vault_decoding_ignores_discriminator_and_tail() {
    let a = vault_bytes();
    let mut b = a.clone();
    b[..8].copy_from_slice(&[0x55; 8]);
    b.extend_from_slice(&[9u8; 40]);
    let va = Vault::load(&a).unwrap();
    let vb = Vault::load(&b).unwrap();
    assert_eq!(va.authority.to_bytes(), vb.authority.to_bytes());
    assert_eq!(va.fee.management_fee_last_update, vb.fee.management_fee_last_update);
    assert_eq!(va.assets.len(), vb.assets.len());
    assert_eq!(va.assets[1].oracle.to_bytes(), vb.assets[1].oracle.to_bytes());
    assert_eq!(va.strategies[0].net_earnings, vb.strategies[0].net_earnings);
}

use vstd::prelude::*;

use crate::errors::{CarrotAmmError, LoadError};
use crate::fee::{fee_at, law_fee_layout, read_fee, Fee};
use crate::le::{bytes_u16, bytes_u32, bytes_u64, law_le_fields, lemma_field_in_subrange, signed64};
use crate::le::{le_field, le_i64, le_u16, le_u64, read_bytes32, read_i64_le, read_u16_le, read_u32_le, read_u64_le};
use crate::math::{calc_usd_amount, usd_amount};
use crate::math_laws::law_usd_amount_rounding;
use crate::pubkey::Pubkey;

verus! {

/// An asset the vault holds, with its token account and price oracle.
#[derive(Clone, Copy, Debug)]
pub struct Asset {
    pub asset_id: u16,
    pub mint: Pubkey,
    pub decimals: u8,
    pub ata: Pubkey,
    pub oracle: Pubkey,
}

/// A strategy's position: the asset it holds, its balance and its net earnings.
#[derive(Clone, Copy, Debug)]
pub struct StrategyRecord {
    pub strategy_id: u16,
    pub asset_id: u16,
    pub balance: u64,
    pub net_earnings: i64,
}

/// Live state of an asset: its mint, token-account balance and oracle price
/// `oracle_price * 10^oracle_price_expo`.
#[derive(Clone, Copy, Debug)]
pub struct AssetState {
    pub asset_id: u16,
    pub mint: Pubkey,
    pub mint_decimals: u8,
    pub ata_amount: u64,
    pub oracle_price: i64,
    pub oracle_price_expo: i32,
}

/// The vault's share mint and its supply.
#[derive(Clone, Copy, Debug)]
pub struct SharesState {
    pub mint: Pubkey,
    pub supply: u64,
    pub decimals: u8,
}

/// Describes a strategy.
pub struct StrategyMetadata {
    pub name: String,
    pub strategy_id: u16,
    pub asset_mint: Pubkey,
    pub vault: Pubkey,
}

/// The protocol a strategy deploys into, with the accounts it uses there.
pub enum StrategyType {
    MarginfiSupply {
        account: Pubkey,
        group: Pubkey,
        bank: Pubkey,
        bank_liquidity_vault: Pubkey,
        bank_liquidity_vault_authority: Pubkey,
        oracle: Pubkey,
    },
    KlendSupply {
        reserve: Pubkey,
        reserve_collateral_mint: Pubkey,
        reserve_liquidity_supply: Pubkey,
        reserve_destination_deposit_collateral: Pubkey,
        reserve_farm_state: Pubkey,
        lending_market: Pubkey,
        oracle: Pubkey,
        scope_prices: Pubkey,
    },
    SolendSupply {
        reserve: Pubkey,
        reserve_collateral_mint: Pubkey,
        reserve_liquidity_supply: Pubkey,
        deposit_collateral_ata: Pubkey,
        lending_market: Pubkey,
        lending_market_authority: Pubkey,
        pyth_oracle: Pubkey,
        switchboard_oracle: Pubkey,
    },
    MangoSupply {
        group: Pubkey,
        account: Pubkey,
        bank: Pubkey,
        vault: Pubkey,
        pyth_oracle: Pubkey,
        switchboard_oracle: Pubkey,
    },
    DriftSupply {
        state: Pubkey,
        signer: Pubkey,
        spot_market: Pubkey,
        spot_market_vault: Pubkey,
        perp_market: Pubkey,
        spot_pyth_oracle: Pubkey,
        perp_pyth_oracle: Pubkey,
        sub_account_id: u16,
        market_index: u16,
    },
    DriftInsuranceFund { state: Pubkey, spot_market: Pubkey, spot_market_vault: Pubkey, market_index: u16 },
    Chest {
        chest: Pubkey,
        coin: Pubkey,
        drift_vault: Pubkey,
        coin_token_account: Pubkey,
        spot_market_index: u16,
    },
}

/// A strategy: its description and where it deploys.
pub struct Strategy {
    pub metadata: StrategyMetadata,
    pub strategy_type: StrategyType,
}

// ---------------------------------------------------------------------------
// Lookups
// ---------------------------------------------------------------------------

/// `i` is the first position in `states` whose asset id is `asset_id`.
pub open spec fn is_first_state_with_id(states: Seq<AssetState>, asset_id: u16, i: int) -> bool {
    &&& 0 <= i < states.len()
    &&& states[i].asset_id == asset_id
    &&& forall|j: int| 0 <= j < i ==> states[j].asset_id != asset_id
}

/// The first state in `states` with asset id `asset_id`, if any.
pub open spec fn lookup_asset_state(states: Seq<AssetState>, asset_id: u16) -> Option<AssetState> {
    if exists|i: int| is_first_state_with_id(states, asset_id, i) {
        Some(states[choose|i: int| is_first_state_with_id(states, asset_id, i)])
    } else {
        None
    }
}

/// Finds the first asset state with the given asset id.
pub fn get_asset_state_by_id(asset_state: &[AssetState], asset_id: u16) -> (r: Result<&AssetState, CarrotAmmError>)
    ensures
        r == (match lookup_asset_state(asset_state@, asset_id) {
            Some(st) => Ok::<&AssetState, CarrotAmmError>(&st),
            None => Err::<&AssetState, CarrotAmmError>(CarrotAmmError::AssetNotFound),
        }),
{
    let mut i: usize = 0;
    while i < asset_state.len()
        invariant
            i <= asset_state@.len(),
            forall|j: int| 0 <= j < i ==> asset_state@[j].asset_id != asset_id,
        decreases asset_state@.len() - i,
    {
        if asset_state[i].asset_id == asset_id {
            proof {
                let s = asset_state@;
                assert(is_first_state_with_id(s, asset_id, i as int));
                let k = choose|k: int| is_first_state_with_id(s, asset_id, k);
                assert(k == i) by {
                    if k < i {
                        assert(s[k].asset_id != asset_id);
                    } else if k > i {
                        assert(s[i as int].asset_id != asset_id);
                    }
                }
            }
            return Ok(&asset_state[i]);
        }
        i = i + 1;
    }
    Err(CarrotAmmError::AssetNotFound)
}

/// `i` is the first position in `assets` whose mint is `mint`.
pub open spec fn is_first_asset_with_mint(assets: Seq<Asset>, mint: Seq<u8>, i: int) -> bool {
    &&& 0 <= i < assets.len()
    &&& assets[i].mint@ == mint
    &&& forall|j: int| 0 <= j < i ==> assets[j].mint@ != mint
}

/// The first asset in `assets` with mint `mint`, if any.
pub open spec fn lookup_asset_by_mint(assets: Seq<Asset>, mint: Seq<u8>) -> Option<Asset> {
    if exists|i: int| is_first_asset_with_mint(assets, mint, i) {
        Some(assets[choose|i: int| is_first_asset_with_mint(assets, mint, i)])
    } else {
        None
    }
}

// ---------------------------------------------------------------------------
// Balances
// ---------------------------------------------------------------------------

/// The USD value of a strategy's balance at its asset's oracle price.
pub open spec fn strategy_balance_usd(strategy: StrategyRecord, states: Seq<AssetState>, ceiling: bool) -> Result<u128, CarrotAmmError> {
    match lookup_asset_state(states, strategy.asset_id) {
        None => Err(CarrotAmmError::AssetNotFound),
        Some(st) => match usd_amount(strategy.balance, st.mint_decimals, st.oracle_price, st.oracle_price_expo, ceiling) {
            None => Err(CarrotAmmError::InvalidTokenCalculation),
            Some(v) => Ok(v),
        },
    }
}

/// The USD value of an asset's token-account balance at its oracle price.
pub open spec fn asset_balance_usd(asset: Asset, states: Seq<AssetState>, ceiling: bool) -> Result<u128, CarrotAmmError> {
    match lookup_asset_state(states, asset.asset_id) {
        None => Err(CarrotAmmError::AssetNotFound),
        Some(st) => match usd_amount(st.ata_amount, st.mint_decimals, st.oracle_price, st.oracle_price_expo, ceiling) {
            None => Err(CarrotAmmError::InvalidTokenCalculation),
            Some(v) => Ok(v),
        },
    }
}

/// The sum of the strategies' USD balances, or the first error among them.
pub open spec fn strategies_usd_total(strategies: Seq<StrategyRecord>, states: Seq<AssetState>, ceiling: bool) -> Result<int, CarrotAmmError>
    decreases strategies.len(),
{
    if strategies.len() == 0 {
        Ok(0)
    } else {
        match strategies_usd_total(strategies.drop_last(), states, ceiling) {
            Err(e) => Err(e),
            Ok(t) => match strategy_balance_usd(strategies.last(), states, ceiling) {
                Err(e) => Err(e),
                Ok(v) => Ok(t + v),
            },
        }
    }
}

/// The sum of the assets' USD balances, or the first error among them.
pub open spec fn assets_usd_total(assets: Seq<Asset>, states: Seq<AssetState>, ceiling: bool) -> Result<int, CarrotAmmError>
    decreases assets.len(),
{
    if assets.len() == 0 {
        Ok(0)
    } else {
        match assets_usd_total(assets.drop_last(), states, ceiling) {
            Err(e) => Err(e),
            Ok(t) => match asset_balance_usd(assets.last(), states, ceiling) {
                Err(e) => Err(e),
                Ok(v) => Ok(t + v),
            },
        }
    }
}

/// The sum of `values`.
pub open spec fn seq_sum(values: Seq<u128>) -> int
    decreases values.len(),
{
    if values.len() == 0 {
        0
    } else {
        seq_sum(values.drop_last()) + values.last()
    }
}

proof fn lemma_seq_sum_prefix_le(values: Seq<u128>, k: int)
    requires
        0 <= k <= values.len(),
    ensures
        0 <= seq_sum(values.take(k)) <= seq_sum(values),
    decreases values.len(),
{
    if values.len() > 0 {
        if k == values.len() {
            assert(values.take(k) =~= values);
            lemma_seq_sum_prefix_le(values.drop_last(), k - 1);
            assert(values.drop_last().take(k - 1) =~= values.drop_last());
        } else {
            lemma_seq_sum_prefix_le(values.drop_last(), k);
            assert(values.drop_last().take(k) =~= values.take(k));
        }
    }
}

/// `values` summed with checked additions: `None` where the sum exceeds `u128::MAX`.
fn checked_sum(values: &Vec<u128>) -> (r: Option<u128>)
    ensures
        0 <= seq_sum(values@),
        r == (if seq_sum(values@) > u128::MAX {
            None::<u128>
        } else {
            Some(seq_sum(values@) as u128)
        }),
{
    proof {
        lemma_seq_sum_prefix_le(values@, values@.len() as int);
        assert(values@.take(values@.len() as int) =~= values@);
    }
    let mut acc: u128 = 0;
    let mut i: usize = 0;
    proof {
        assert(values@.take(0) =~= Seq::<u128>::empty());
    }
    while i < values.len()
        invariant
            i <= values@.len(),
            acc == seq_sum(values@.take(i as int)),
        decreases values@.len() - i,
    {
        proof {
            assert(values@.take(i + 1).drop_last() =~= values@.take(i as int));
        }
        match acc.checked_add(values[i]) {
            Some(s) => acc = s,
            None => {
                proof {
                    lemma_seq_sum_prefix_le(values@, i + 1);
                }
                return None;
            },
        }
        i = i + 1;
    }
    proof {
        assert(values@.take(i as int) =~= values@);
    }
    Some(acc)
}

/// The strategy record laid out little-endian in `s` from `off` on.
pub open spec fn strategy_record_at(s: Seq<u8>, off: int) -> StrategyRecord {
    StrategyRecord {
        strategy_id: le_u16(s, off),
        asset_id: le_u16(s, off + 2),
        balance: le_u64(s, off + 4),
        net_earnings: le_i64(s, off + 12),
    }
}

fn read_strategy_record(account_data: &[u8], off: usize) -> (r: StrategyRecord)
    requires
        off + StrategyRecord::SPACE <= account_data.len(),
    ensures
        r == strategy_record_at(account_data@, off as int),
{
    let strategy_id = read_u16_le(account_data, off);
    let asset_id = read_u16_le(account_data, off + 2);
    let balance = read_u64_le(account_data, off + 4);
    let net_earnings = read_i64_le(account_data, off + 12);
    StrategyRecord { strategy_id, asset_id, balance, net_earnings }
}

fn read_asset(account_data: &[u8], off: usize) -> (r: Asset)
    requires
        off + Asset::SPACE <= account_data.len(),
    ensures
        r.decoded_at(account_data@, off as int),
{
    let asset_id = read_u16_le(account_data, off);
    let mint = Pubkey::new_from_array(read_bytes32(account_data, off + 2));
    let decimals = account_data[off + 34];
    let ata = Pubkey::new_from_array(read_bytes32(account_data, off + 35));
    let oracle = Pubkey::new_from_array(read_bytes32(account_data, off + 67));
    Asset { asset_id, mint, decimals, ata, oracle }
}

impl StrategyRecord {
    /// Size in bytes of an encoded strategy record.
    pub const SPACE: usize = 20;

    /// Decodes a strategy record.
    pub fn load(account_data: &[u8]) -> (r: Result<StrategyRecord, LoadError>)
        requires
            account_data@.len() == Self::SPACE,
        ensures
            r == Ok::<StrategyRecord, LoadError>(strategy_record_at(account_data@, 0)),
    {
        Ok(read_strategy_record(account_data, 0))
    }

    fn get_balance_usd(&self, asset_state: &AssetState, ceiling: bool) -> (r: Result<u128, CarrotAmmError>)
        ensures
            r == (match usd_amount(self.balance, asset_state.mint_decimals, asset_state.oracle_price, asset_state.oracle_price_expo, ceiling) {
                None => Err::<u128, CarrotAmmError>(CarrotAmmError::InvalidTokenCalculation),
                Some(v) => Ok(v),
            }),
    {
        match calc_usd_amount(self.balance, asset_state.mint_decimals, asset_state.oracle_price, asset_state.oracle_price_expo, ceiling) {
            Some(v) => Ok(v),
            None => Err(CarrotAmmError::InvalidTokenCalculation),
        }
    }
}

impl Asset {
    /// Size in bytes of an encoded asset record.
    pub const SPACE: usize = 99;

    /// This asset is the record laid out in `s` from `off` on.
    pub open spec fn decoded_at(&self, s: Seq<u8>, off: int) -> bool {
        &&& self.asset_id == le_u16(s, off)
        &&& self.mint@ == s.subrange(off + 2, off + 34)
        &&& self.decimals == s[off + 34]
        &&& self.ata@ == s.subrange(off + 35, off + 67)
        &&& self.oracle@ == s.subrange(off + 67, off + 99)
    }

    /// Decodes an asset record.
    pub fn load(account_data: &[u8]) -> (r: Result<Asset, LoadError>)
        requires
            account_data@.len() == Self::SPACE,
        ensures
            r matches Ok(asset) && asset.decoded_at(account_data@, 0),
    {
        Ok(read_asset(account_data, 0))
    }

    fn get_balance_usd(&self, asset_state: &AssetState, ceiling: bool) -> (r: Result<u128, CarrotAmmError>)
        ensures
            r == (match usd_amount(asset_state.ata_amount, asset_state.mint_decimals, asset_state.oracle_price, asset_state.oracle_price_expo, ceiling) {
                None => Err::<u128, CarrotAmmError>(CarrotAmmError::InvalidTokenCalculation),
                Some(v) => Ok(v),
            }),
    {
        match calc_usd_amount(asset_state.ata_amount, asset_state.mint_decimals, asset_state.oracle_price, asset_state.oracle_price_expo, ceiling) {
            Some(v) => Ok(v),
            None => Err(CarrotAmmError::InvalidTokenCalculation),
        }
    }
}


// ---------------------------------------------------------------------------
// The vault account
// ---------------------------------------------------------------------------

/// The vault: its authority, share mint, fees, and the assets and strategies it holds.
#[derive(Clone, Debug)]
pub struct Vault {
    pub authority: Pubkey,
    pub shares: Pubkey,
    pub fee: Fee,
    pub paused: bool,
    pub asset_index: u16,
    pub strategy_index: u16,
    pub assets: Vec<Asset>,
    pub strategies: Vec<StrategyRecord>,
}

/// Offset of the asset count in a vault account.
pub open spec fn vault_assets_len_offset() -> int {
    8 + 32 + 32 + Fee::SPACE + 1 + 2 + 2
}

/// The number of assets a vault account declares.
pub open spec fn vault_assets_len(s: Seq<u8>) -> nat {
    le_field(s, vault_assets_len_offset(), 4)
}

/// Offset of the strategy count in a vault account.
pub open spec fn vault_strategies_len_offset(s: Seq<u8>) -> int {
    vault_assets_len_offset() + 4 + Asset::SPACE * vault_assets_len(s)
}

/// The number of strategies a vault account declares.
pub open spec fn vault_strategies_len(s: Seq<u8>) -> nat {
    le_field(s, vault_strategies_len_offset(s), 4)
}

/// The number of bytes that the fields and records of the account `s` take.
pub open spec fn vault_layout_len(s: Seq<u8>) -> int {
    vault_strategies_len_offset(s) + 4 + StrategyRecord::SPACE * vault_strategies_len(s)
}

/// The account `s` holds every field and record that its counts declare.
pub open spec fn vault_layout_fits(s: Seq<u8>) -> bool {
    &&& s.len() >= vault_assets_len_offset() + 4
    &&& s.len() >= vault_strategies_len_offset(s) + 4
    &&& s.len() >= vault_strategies_len_offset(s) + 4 + StrategyRecord::SPACE * vault_strategies_len(s)
}

/// The accumulated performance fee of `strategies`, or the first error.
pub open spec fn accumulated_performance_fee(
    fee: Fee,
    strategies: Seq<StrategyRecord>,
    states: Seq<AssetState>,
    shares_supply: u64,
    shares_decimals: u8,
    vault_tvl: u128,
) -> Result<u64, CarrotAmmError>
    decreases strategies.len(),
{
    if strategies.len() == 0 {
        Ok(0)
    } else {
        match accumulated_performance_fee(fee, strategies.drop_last(), states, shares_supply, shares_decimals, vault_tvl) {
            Err(e) => Err(e),
            Ok(total) => match lookup_asset_state(states, strategies.last().asset_id) {
                None => Err(CarrotAmmError::AssetNotFound),
                Some(st) => match fee.performance_fee_shares(
                    strategies.last().net_earnings,
                    (st.oracle_price, st.oracle_price_expo, st.mint_decimals),
                    shares_supply,
                    shares_decimals,
                    vault_tvl,
                ) {
                    Err(e) => Err(e),
                    Ok(f) => if total + f > u64::MAX {
                        Err(CarrotAmmError::InvalidFeeCalculation)
                    } else {
                        Ok((total + f) as u64)
                    },
                },
            },
        }
    }
}

impl Vault {
    /// This vault is the account `s` decoded.
    pub open spec fn decoded_from(&self, s: Seq<u8>) -> bool {
        let strategies_offset = vault_strategies_len_offset(s) + 4;
        &&& self.authority@ == s.subrange(8, 40)
        &&& self.shares@ == s.subrange(40, 72)
        &&& self.fee == fee_at(s, 72)
        &&& self.paused == (s[102] > 0)
        &&& self.asset_index == le_u16(s, 103)
        &&& self.strategy_index == le_u16(s, 105)
        &&& self.assets@.len() == vault_assets_len(s)
        &&& forall|i: int|
            0 <= i < self.assets@.len() ==> #[trigger] self.assets@[i].decoded_at(
                s,
                vault_assets_len_offset() + 4 + Asset::SPACE * i,
            )
        &&& self.strategies@.len() == vault_strategies_len(s)
        &&& forall|i: int|
            0 <= i < self.strategies@.len() ==> #[trigger] self.strategies@[i] == strategy_record_at(
                s,
                strategies_offset + StrategyRecord::SPACE * i,
            )
    }

    /// The vault's total value in USD, or the first error.
    pub open spec fn tvl(&self, states: Seq<AssetState>, ceiling: bool) -> Result<u128, CarrotAmmError> {
        match strategies_usd_total(self.strategies@, states, ceiling) {
            Err(e) => Err(e),
            Ok(a) => match assets_usd_total(self.assets@, states, ceiling) {
                Err(e) => Err(e),
                Ok(b) => if a + b > u128::MAX {
                    Err(CarrotAmmError::InvalidTokenCalculation)
                } else {
                    Ok((a + b) as u128)
                },
            },
        }
    }

    /// Summing the strategy balances, and then the asset balances, does not
    /// overflow a `u128` (each sum is taken only when all its terms are defined).
    pub open spec fn tvl_sums_fit(&self, states: Seq<AssetState>, ceiling: bool) -> bool {
        match strategies_usd_total(self.strategies@, states, ceiling) {
            Err(_) => true,
            Ok(a) => a <= u128::MAX && (assets_usd_total(self.assets@, states, ceiling) matches Ok(b)
                ==> b <= u128::MAX),
        }
    }

    /// Whether `account_data` holds every record that its counts declare,
    /// which `load` requires.
    pub fn fits(account_data: &[u8]) -> (r: bool)
        ensures
            r == vault_layout_fits(account_data@),
    {
        let len = account_data.len() as u64;
        if account_data.len() < 111 {
            return false;
        }
        let assets_len = read_u32_le(account_data, 107) as u64;
        proof {
            crate::le::lemma_field_bound(account_data@, 107, 4);
        }
        let strategies_len_offset: u64 = 111 + 99 * assets_len;
        if len < strategies_len_offset + 4 {
            return false;
        }
        let strategies_len = read_u32_le(account_data, strategies_len_offset as usize) as u64;
        proof {
            crate::le::lemma_field_bound(account_data@, strategies_len_offset as int, 4);
        }
        len >= strategies_len_offset + 4 + 20 * strategies_len
    }

    /// Decodes a vault account.
    pub fn load(account_data: &[u8]) -> (r: Result<Vault, LoadError>)
        requires
            vault_layout_fits(account_data@),
        ensures
            r matches Ok(vault) && vault.decoded_from(account_data@),
    {
        let ghost s = account_data@;
        // start at 8 to skip the account discriminator
        let authority = Pubkey::new_from_array(read_bytes32(account_data, 8));
        let shares = Pubkey::new_from_array(read_bytes32(account_data, 40));
        let fee = read_fee(account_data, 72);
        let paused = account_data[102] > 0;
        let asset_index = read_u16_le(account_data, 103);
        let strategy_index = read_u16_le(account_data, 105);

        let assets_len = read_u32_le(account_data, 107);
        proof {
            crate::le::lemma_field_bound(s, 107, 4);
        }
        let mut offset: usize = 111;
        let mut assets: Vec<Asset> = Vec::with_capacity(assets_len as usize);
        let mut k: u32 = 0;
        while k < assets_len
            invariant
                s == account_data@,
                vault_layout_fits(s),
                vault_strategies_len_offset(s) + 4 <= account_data.len(),
                assets_len == vault_assets_len(s),
                k <= assets_len,
                offset == 111 + 99 * k,
                assets@.len() == k,
                forall|i: int|
                    0 <= i < k ==> #[trigger] assets@[i].decoded_at(s, 111 + 99 * i),
            decreases assets_len - k,
        {
            let asset = read_asset(account_data, offset);
            assets.push(asset);
            offset = offset + 99;
            k = k + 1;
        }

        let strategies_len = read_u32_le(account_data, offset);
        proof {
            crate::le::lemma_field_bound(s, offset as int, 4);
        }
        offset = offset + 4;
        let ghost strategies_offset = offset as int;
        let mut strategies: Vec<StrategyRecord> = Vec::with_capacity(strategies_len as usize);
        let mut k: u32 = 0;
        while k < strategies_len
            invariant
                s == account_data@,
                vault_layout_fits(s),
                strategies_offset + 20 * strategies_len <= account_data.len(),
                strategies_offset == vault_strategies_len_offset(s) + 4,
                strategies_len == vault_strategies_len(s),
                k <= strategies_len,
                offset == strategies_offset + 20 * k,
                strategies@.len() == k,
                forall|i: int|
                    0 <= i < k ==> #[trigger] strategies@[i] == strategy_record_at(s, strategies_offset + 20 * i),
            decreases strategies_len - k,
        {
            let strategy = read_strategy_record(account_data, offset);
            strategies.push(strategy);
            offset = offset + 20;
            k = k + 1;
        }

        Ok(Vault { authority, shares, fee, paused, asset_index, strategy_index, assets, strategies })
    }

    /// The USD value of each strategy's balance, or the first error.
    fn strategy_balances_usd(&self, asset_state: &[AssetState], ceiling: bool) -> (r: Result<Vec<u128>, CarrotAmmError>)
        ensures
            r matches Ok(values) ==> strategies_usd_total(self.strategies@, asset_state@, ceiling) == Ok::<int, CarrotAmmError>(seq_sum(values@)),
            r matches Err(e) ==> strategies_usd_total(self.strategies@, asset_state@, ceiling) == Err::<int, CarrotAmmError>(e),
    {
        let mut values: Vec<u128> = Vec::new();
        let mut i: usize = 0;
        proof {
            assert(self.strategies@.take(0) =~= Seq::<StrategyRecord>::empty());
        }
        while i < self.strategies.len()
            invariant
                i <= self.strategies@.len(),
                values@.len() == i,
                strategies_usd_total(self.strategies@.take(i as int), asset_state@, ceiling) == Ok::<int, CarrotAmmError>(seq_sum(values@)),
            decreases self.strategies@.len() - i,
        {
            let strategy = &self.strategies[i];
            proof {
                assert(self.strategies@.take(i + 1).drop_last() =~= self.strategies@.take(i as int));
                lemma_total_err_propagates_strategies(self.strategies@, asset_state@, ceiling, i + 1);
            }
            let state = match get_asset_state_by_id(asset_state, strategy.asset_id) {
                Ok(st) => st,
                Err(e) => return Err(e),
            };
            let balance_usd = match strategy.get_balance_usd(state, ceiling) {
                Ok(v) => v,
                Err(e) => return Err(e),
            };
            let ghost old_values = values@;
            values.push(balance_usd);
            proof {
                assert(values@.drop_last() =~= old_values);
            }
            i = i + 1;
        }
        proof {
            assert(self.strategies@.take(i as int) =~= self.strategies@);
        }
        Ok(values)
    }

    /// The USD value of each asset's token-account balance, or the first error.
    fn asset_balances_usd(&self, asset_state: &[AssetState], ceiling: bool) -> (r: Result<Vec<u128>, CarrotAmmError>)
        ensures
            r matches Ok(values) ==> assets_usd_total(self.assets@, asset_state@, ceiling) == Ok::<int, CarrotAmmError>(seq_sum(values@)),
            r matches Err(e) ==> assets_usd_total(self.assets@, asset_state@, ceiling) == Err::<int, CarrotAmmError>(e),
    {
        let mut values: Vec<u128> = Vec::new();
        let mut i: usize = 0;
        proof {
            assert(self.assets@.take(0) =~= Seq::<Asset>::empty());
        }
        while i < self.assets.len()
            invariant
                i <= self.assets@.len(),
                values@.len() == i,
                assets_usd_total(self.assets@.take(i as int), asset_state@, ceiling) == Ok::<int, CarrotAmmError>(seq_sum(values@)),
            decreases self.assets@.len() - i,
        {
            let asset = &self.assets[i];
            proof {
                assert(self.assets@.take(i + 1).drop_last() =~= self.assets@.take(i as int));
                lemma_total_err_propagates_assets(self.assets@, asset_state@, ceiling, i + 1);
            }
            let state = match get_asset_state_by_id(asset_state, asset.asset_id) {
                Ok(st) => st,
                Err(e) => return Err(e),
            };
            let balance_usd = match asset.get_balance_usd(state, ceiling) {
                Ok(v) => v,
                Err(e) => return Err(e),
            };
            let ghost old_values = values@;
            values.push(balance_usd);
            proof {
                assert(values@.drop_last() =~= old_values);
            }
            i = i + 1;
        }
        proof {
            assert(self.assets@.take(i as int) =~= self.assets@);
        }
        Ok(values)
    }

    /// Whether the sums that `get_tvl` takes fit a `u128`, which `get_tvl` requires.
    pub fn check_tvl_sums_fit(&self, asset_state: &[AssetState], ceiling: bool) -> (r: bool)
        ensures
            r == self.tvl_sums_fit(asset_state@, ceiling),
    {
        let strategy_values = match self.strategy_balances_usd(asset_state, ceiling) {
            Ok(v) => v,
            Err(_) => return true,
        };
        if checked_sum(&strategy_values).is_none() {
            return false;
        }
        let asset_values = match self.asset_balances_usd(asset_state, ceiling) {
            Ok(v) => v,
            Err(_) => return true,
        };
        checked_sum(&asset_values).is_some()
    }

    /// The vault's total value in USD: the strategies' balances plus the
    /// reserves in the asset token accounts, at the assets' oracle prices.
    pub fn get_tvl(&self, asset_state: &[AssetState], ceiling: bool) -> (r: Result<u128, CarrotAmmError>)
        requires
            self.tvl_sums_fit(asset_state@, ceiling),
        ensures
            r == self.tvl(asset_state@, ceiling),
    {
        let strategy_values = match self.strategy_balances_usd(asset_state, ceiling) {
            Ok(v) => v,
            Err(e) => return Err(e),
        };
        let total_strategy_balance = match checked_sum(&strategy_values) {
            Some(t) => t,
            None => return Err(CarrotAmmError::InvalidTokenCalculation),
        };
        let asset_values = match self.asset_balances_usd(asset_state, ceiling) {
            Ok(v) => v,
            Err(e) => return Err(e),
        };
        let total_reserve_balance = match checked_sum(&asset_values) {
            Some(t) => t,
            None => return Err(CarrotAmmError::InvalidTokenCalculation),
        };
        match total_strategy_balance.checked_add(total_reserve_balance) {
            Some(t) => Ok(t),
            None => Err(CarrotAmmError::InvalidTokenCalculation),
        }
    }

    /// The performance fee, in shares, accumulated over all strategies.
    pub fn calculate_accumulated_performance_fee(
        &self,
        asset_state: &[AssetState],
        shares_supply: u64,
        shares_decimals: u8,
        vault_tvl: u128,
    ) -> (r: Result<u64, CarrotAmmError>)
        ensures
            r == accumulated_performance_fee(self.fee, self.strategies@, asset_state@, shares_supply, shares_decimals, vault_tvl),
    {
        let mut performance_fee_accumulated: u64 = 0;
        let mut i: usize = 0;
        proof {
            assert(self.strategies@.take(0) =~= Seq::<StrategyRecord>::empty());
        }
        while i < self.strategies.len()
            invariant
                i <= self.strategies@.len(),
                accumulated_performance_fee(self.fee, self.strategies@.take(i as int), asset_state@, shares_supply, shares_decimals, vault_tvl)
                    == Ok::<u64, CarrotAmmError>(performance_fee_accumulated),
            decreases self.strategies@.len() - i,
        {
            let strategy = &self.strategies[i];
            proof {
                assert(self.strategies@.take(i + 1).drop_last() =~= self.strategies@.take(i as int));
                lemma_fee_err_propagates(self.fee, self.strategies@, asset_state@, shares_supply, shares_decimals, vault_tvl, i + 1);
            }
            // find the strategy's asset
            let asset = match get_asset_state_by_id(asset_state, strategy.asset_id) {
                Ok(st) => st,
                Err(e) => return Err(e),
            };
            let strategy_performance_fee = match self.fee.calculate_performance_fee(
                strategy.net_earnings,
                (asset.oracle_price, asset.oracle_price_expo, asset.mint_decimals),
                shares_supply,
                shares_decimals,
                vault_tvl,
            ) {
                Ok(f) => f,
                Err(e) => return Err(e),
            };
            performance_fee_accumulated = match performance_fee_accumulated.checked_add(strategy_performance_fee) {
                Some(t) => t,
                None => return Err(CarrotAmmError::InvalidFeeCalculation),
            };
            i = i + 1;
        }
        proof {
            assert(self.strategies@.take(i as int) =~= self.strategies@);
        }
        Ok(performance_fee_accumulated)
    }

    /// Finds the first of the vault's assets with the given mint.
    pub fn get_asset_by_mint(&self, asset_mint: Pubkey) -> (r: Result<&Asset, CarrotAmmError>)
        ensures
            r == (match lookup_asset_by_mint(self.assets@, asset_mint@) {
                Some(a) => Ok::<&Asset, CarrotAmmError>(&a),
                None => Err::<&Asset, CarrotAmmError>(CarrotAmmError::AssetNotFound),
            }),
    {
        let mut i: usize = 0;
        while i < self.assets.len()
            invariant
                i <= self.assets@.len(),
                forall|j: int| 0 <= j < i ==> self.assets@[j].mint@ != asset_mint@,
            decreases self.assets@.len() - i,
        {
            if self.assets[i].mint == asset_mint {
                proof {
                    let s = self.assets@;
                    assert(is_first_asset_with_mint(s, asset_mint@, i as int));
                    let k = choose|k: int| is_first_asset_with_mint(s, asset_mint@, k);
                    assert(k == i) by {
                        if k < i {
                            assert(s[k].mint@ != asset_mint@);
                        } else if k > i {
                            assert(s[i as int].mint@ != asset_mint@);
                        }
                    }
                }
                return Ok(&self.assets[i]);
            }
            i = i + 1;
        }
        Err(CarrotAmmError::AssetNotFound)
    }
}

/// An error in the total of a prefix is the error of every longer prefix.
proof fn lemma_total_err_propagates_strategies(strategies: Seq<StrategyRecord>, states: Seq<AssetState>, ceiling: bool, k: int)
    requires
        0 <= k <= strategies.len(),
    ensures
        strategies_usd_total(strategies.take(k), states, ceiling) matches Err(e) ==> strategies_usd_total(strategies, states, ceiling) == Err::<int, CarrotAmmError>(e),
    decreases strategies.len(),
{
    if k < strategies.len() {
        lemma_total_err_propagates_strategies(strategies.drop_last(), states, ceiling, k);
        assert(strategies.drop_last().take(k) =~= strategies.take(k));
    } else {
        assert(strategies.take(k) =~= strategies);
    }
}

proof fn lemma_total_err_propagates_assets(assets: Seq<Asset>, states: Seq<AssetState>, ceiling: bool, k: int)
    requires
        0 <= k <= assets.len(),
    ensures
        assets_usd_total(assets.take(k), states, ceiling) matches Err(e) ==> assets_usd_total(assets, states, ceiling) == Err::<int, CarrotAmmError>(e),
    decreases assets.len(),
{
    if k < assets.len() {
        lemma_total_err_propagates_assets(assets.drop_last(), states, ceiling, k);
        assert(assets.drop_last().take(k) =~= assets.take(k));
    } else {
        assert(assets.take(k) =~= assets);
    }
}

proof fn lemma_fee_err_propagates(
    fee: Fee,
    strategies: Seq<StrategyRecord>,
    states: Seq<AssetState>,
    shares_supply: u64,
    shares_decimals: u8,
    vault_tvl: u128,
    k: int,
)
    requires
        0 <= k <= strategies.len(),
    ensures
        accumulated_performance_fee(fee, strategies.take(k), states, shares_supply, shares_decimals, vault_tvl) matches Err(e)
            ==> accumulated_performance_fee(fee, strategies, states, shares_supply, shares_decimals, vault_tvl) == Err::<u64, CarrotAmmError>(e),
    decreases strategies.len(),
{
    if k < strategies.len() {
        lemma_fee_err_propagates(fee, strategies.drop_last(), states, shares_supply, shares_decimals, vault_tvl, k);
        assert(strategies.drop_last().take(k) =~= strategies.take(k));
    } else {
        assert(strategies.take(k) =~= strategies);
    }
}

proof fn lemma_strategies_total_rounding(strategies: Seq<StrategyRecord>, states: Seq<AssetState>)
    ensures
        strategies_usd_total(strategies, states, true) matches Ok(up) ==> (strategies_usd_total(
            strategies,
            states,
            false,
        ) matches Ok(down) && 0 <= down <= up <= down + strategies.len()),
    decreases strategies.len(),
{
    if strategies.len() > 0 {
        lemma_strategies_total_rounding(strategies.drop_last(), states);
        let last = strategies.last();
        if let Some(st) = lookup_asset_state(states, last.asset_id) {
            law_usd_amount_rounding(last.balance, st.mint_decimals, st.oracle_price, st.oracle_price_expo);
        }
    }
}

proof fn lemma_assets_total_rounding(assets: Seq<Asset>, states: Seq<AssetState>)
    ensures
        assets_usd_total(assets, states, true) matches Ok(up) ==> (assets_usd_total(
            assets,
            states,
            false,
        ) matches Ok(down) && 0 <= down <= up <= down + assets.len()),
    decreases assets.len(),
{
    if assets.len() > 0 {
        lemma_assets_total_rounding(assets.drop_last(), states);
        let last = assets.last();
        if let Some(st) = lookup_asset_state(states, last.asset_id) {
            law_usd_amount_rounding(st.ata_amount, st.mint_decimals, st.oracle_price, st.oracle_price_expo);
        }
    }
}

/// The vault's value with every balance rounded up is at least its value with
/// every balance rounded down, and exceeds it by at most one unit per strategy
/// and asset; whenever the former is defined, so is the latter.
pub proof fn law_tvl_rounding(vault: Vault, states: Seq<AssetState>)
    ensures
        vault.tvl(states, true) matches Ok(up) ==> (vault.tvl(states, false) matches Ok(down)
            && down <= up <= down + vault.strategies@.len() + vault.assets@.len()),
{
    lemma_strategies_total_rounding(vault.strategies@, states);
    lemma_assets_total_rounding(vault.assets@, states);
}

/// `s1` and `s2` hold the same bytes from `lo` up to `hi`.
pub open spec fn bytes_agree(s1: Seq<u8>, s2: Seq<u8>, lo: int, hi: int) -> bool {
    &&& hi <= s1.len()
    &&& hi <= s2.len()
    &&& forall|i: int| lo <= i < hi ==> s1[i] == s2[i]
}

proof fn lemma_agree_subrange(s1: Seq<u8>, s2: Seq<u8>, lo: int, hi: int, a: int, b: int)
    requires
        bytes_agree(s1, s2, lo, hi),
        0 <= lo <= a <= b <= hi,
    ensures
        s1.subrange(a, b) == s2.subrange(a, b),
        le_field(s1, a, b - a) == le_field(s2, a, b - a),
{
    assert(s1.subrange(a, b) =~= s2.subrange(a, b));
}

proof fn lemma_asset_decoding_agrees(asset: Asset, s1: Seq<u8>, s2: Seq<u8>, lo: int, hi: int, off: int)
    requires
        bytes_agree(s1, s2, lo, hi),
        0 <= lo <= off,
        off + Asset::SPACE <= hi,
    ensures
        asset.decoded_at(s1, off) <==> asset.decoded_at(s2, off),
{
    lemma_agree_subrange(s1, s2, lo, hi, off, off + 2);
    lemma_agree_subrange(s1, s2, lo, hi, off + 2, off + 34);
    lemma_agree_subrange(s1, s2, lo, hi, off + 35, off + 67);
    lemma_agree_subrange(s1, s2, lo, hi, off + 67, off + 99);
}

proof fn lemma_strategy_decoding_agrees(s1: Seq<u8>, s2: Seq<u8>, lo: int, hi: int, off: int)
    requires
        bytes_agree(s1, s2, lo, hi),
        0 <= lo <= off,
        off + StrategyRecord::SPACE <= hi,
    ensures
        strategy_record_at(s1, off) == strategy_record_at(s2, off),
{
    lemma_agree_subrange(s1, s2, lo, hi, off, off + 2);
    lemma_agree_subrange(s1, s2, lo, hi, off + 2, off + 4);
    lemma_agree_subrange(s1, s2, lo, hi, off + 4, off + 12);
    lemma_agree_subrange(s1, s2, lo, hi, off + 12, off + 20);
}

/// Decoding a vault account reads neither its first 8 bytes (the
/// discriminator) nor anything past the records that its counts declare: two
/// accounts that agree in between decode to the same vaults.
pub proof fn law_vault_decoding_ignores_discriminator_and_tail(s1: Seq<u8>, s2: Seq<u8>, vault: Vault)
    requires
        vault_layout_fits(s1),
        s2.len() >= vault_layout_len(s1),
        s1.subrange(8, vault_layout_len(s1)) == s2.subrange(8, vault_layout_len(s1)),
    ensures
        vault_layout_fits(s2),
        vault_layout_len(s2) == vault_layout_len(s1),
        vault.decoded_from(s1) <==> vault.decoded_from(s2),
{
    let hi = vault_layout_len(s1);
    assert forall|i: int| 8 <= i < hi implies s1[i] == s2[i] by {
        assert(s1[i] == s1.subrange(8, hi)[i - 8]);
        assert(s2[i] == s2.subrange(8, hi)[i - 8]);
    }
    assert(bytes_agree(s1, s2, 8, hi));
    let na = vault_assets_len(s1);
    lemma_agree_subrange(s1, s2, 8, hi, 107, 111);
    assert(vault_assets_len(s2) == na);
    let ns_off = vault_strategies_len_offset(s1);
    assert(vault_strategies_len_offset(s2) == ns_off);
    lemma_agree_subrange(s1, s2, 8, hi, ns_off, ns_off + 4);
    assert(vault_strategies_len(s2) == vault_strategies_len(s1));
    // the fixed fields
    lemma_agree_subrange(s1, s2, 8, hi, 8, 40);
    lemma_agree_subrange(s1, s2, 8, hi, 40, 72);
    lemma_agree_subrange(s1, s2, 8, hi, 72, 74);
    lemma_agree_subrange(s1, s2, 8, hi, 74, 82);
    lemma_agree_subrange(s1, s2, 8, hi, 82, 84);
    lemma_agree_subrange(s1, s2, 8, hi, 84, 92);
    lemma_agree_subrange(s1, s2, 8, hi, 92, 100);
    lemma_agree_subrange(s1, s2, 8, hi, 100, 102);
    lemma_agree_subrange(s1, s2, 8, hi, 103, 105);
    lemma_agree_subrange(s1, s2, 8, hi, 105, 107);
    assert(fee_at(s1, 72) == fee_at(s2, 72));
    assert(s1[102] == s2[102]);
    // the records
    assert forall|i: int| 0 <= i < na implies #[trigger] vault.assets@[i].decoded_at(
        s1,
        vault_assets_len_offset() + 4 + Asset::SPACE * i,
    ) <==> vault.assets@[i].decoded_at(s2, vault_assets_len_offset() + 4 + Asset::SPACE * i) by {
        lemma_asset_decoding_agrees(vault.assets@[i], s1, s2, 8, hi, 111 + 99 * i);
    }
    let strategies_offset = ns_off + 4;
    assert forall|i: int| 0 <= i < vault_strategies_len(s1) implies #[trigger] strategy_record_at(
        s1,
        strategies_offset + StrategyRecord::SPACE * i,
    ) == strategy_record_at(s2, strategies_offset + StrategyRecord::SPACE * i) by {
        lemma_strategy_decoding_agrees(s1, s2, 8, hi, strategies_offset + 20 * i);
    }
    if vault.decoded_from(s1) {
        assert forall|i: int| 0 <= i < vault.assets@.len() implies #[trigger] vault.assets@[i].decoded_at(
            s2,
            vault_assets_len_offset() + 4 + Asset::SPACE * i,
        ) by {
            assert(vault.assets@[i].decoded_at(s1, vault_assets_len_offset() + 4 + Asset::SPACE * i));
        }
        assert forall|i: int| 0 <= i < vault.strategies@.len() implies #[trigger] vault.strategies@[i] == strategy_record_at(
            s2,
            vault_strategies_len_offset(s2) + 4 + StrategyRecord::SPACE * i,
        ) by {
            assert(vault.strategies@[i] == strategy_record_at(s1, strategies_offset + StrategyRecord::SPACE * i));
        }
        assert(vault.decoded_from(s2));
    }
    if vault.decoded_from(s2) {
        assert forall|i: int| 0 <= i < vault.assets@.len() implies #[trigger] vault.assets@[i].decoded_at(
            s1,
            vault_assets_len_offset() + 4 + Asset::SPACE * i,
        ) by {
            assert(vault.assets@[i].decoded_at(s2, vault_assets_len_offset() + 4 + Asset::SPACE * i));
        }
        assert forall|i: int| 0 <= i < vault.strategies@.len() implies #[trigger] vault.strategies@[i] == strategy_record_at(
            s1,
            strategies_offset + StrategyRecord::SPACE * i,
        ) by {
            assert(vault.strategies@[i] == strategy_record_at(s2, strategies_offset + StrategyRecord::SPACE * i));
        }
        assert(vault.decoded_from(s1));
    }
}

/// A strategy record's fields, little-endian at fixed offsets: strategy id
/// at 0..2, asset id at 2..4, balance at 4..12, net earnings (signed) at
/// 12..20. A record read inside a slice is the record at the slice's start.
pub proof fn law_strategy_record_layout(s: Seq<u8>, off: int)
    requires
        0 <= off,
        off + StrategyRecord::SPACE <= s.len(),
    ensures
        strategy_record_at(s, off).strategy_id == bytes_u16(s, off),
        strategy_record_at(s, off).asset_id == bytes_u16(s, off + 2),
        strategy_record_at(s, off).balance == bytes_u64(s, off + 4),
        strategy_record_at(s, off).net_earnings == signed64(bytes_u64(s, off + 12)),
        strategy_record_at(s.subrange(off, off + StrategyRecord::SPACE), 0) == strategy_record_at(s, off),
{
    law_le_fields(s, off);
    law_le_fields(s, off + 2);
    law_le_fields(s, off + 4);
    law_le_fields(s, off + 12);
    let hi = off + StrategyRecord::SPACE;
    lemma_field_in_subrange(s, off, hi, 0, 2);
    lemma_field_in_subrange(s, off, hi, 2, 2);
    lemma_field_in_subrange(s, off, hi, 4, 8);
    lemma_field_in_subrange(s, off, hi, 12, 8);
}

/// An asset record's fields: asset id little-endian at 0..2, mint at 2..34,
/// decimals at 34, token account at 35..67, oracle at 67..99. A record read
/// inside a slice is the record at the slice's start.
pub proof fn law_asset_layout(asset: Asset, s: Seq<u8>, off: int)
    requires
        0 <= off,
        off + Asset::SPACE <= s.len(),
    ensures
        asset.decoded_at(s, off) ==> {
            &&& asset.asset_id == bytes_u16(s, off)
            &&& asset.mint@ == s.subrange(off + 2, off + 34)
            &&& asset.decimals == s[off + 34]
            &&& asset.ata@ == s.subrange(off + 35, off + 67)
            &&& asset.oracle@ == s.subrange(off + 67, off + 99)
        },
        asset.decoded_at(s.subrange(off, off + Asset::SPACE), 0) <==> asset.decoded_at(s, off),
{
    law_le_fields(s, off);
    let hi = off + Asset::SPACE;
    lemma_field_in_subrange(s, off, hi, 0, 2);
    lemma_field_in_subrange(s, off, hi, 2, 32);
    lemma_field_in_subrange(s, off, hi, 35, 32);
    lemma_field_in_subrange(s, off, hi, 67, 32);
}

/// A decoded vault account: authority at 8..40, share mint at 40..72, the fee
/// record that `Fee::load` reads from bytes 72..102, the paused flag at 102
/// (any nonzero byte), the asset and strategy indexes little-endian at 103..105
/// and 105..107, the asset count at 107..111 followed by that many asset
/// records of 99 bytes (each as `Asset::load` reads it), then the strategy
/// count followed by that many strategy records of 20 bytes (each as
/// `StrategyRecord::load` reads it).
pub proof fn law_vault_layout(vault: Vault, s: Seq<u8>)
    requires
        vault_layout_fits(s),
        vault.decoded_from(s),
    ensures
        vault.authority@ == s.subrange(8, 40),
        vault.shares@ == s.subrange(40, 72),
        vault.fee == fee_at(s.subrange(72, 102), 0),
        vault.fee.redemption_fee_bps == bytes_u16(s, 72),
        vault.fee.redemption_fee_accumulated == bytes_u64(s, 74),
        vault.fee.management_fee_bps == bytes_u16(s, 82),
        vault.fee.management_fee_last_update == signed64(bytes_u64(s, 84)),
        vault.fee.management_fee_accumulated == bytes_u64(s, 92),
        vault.fee.performance_fee_bps == bytes_u16(s, 100),
        vault.paused == (s[102] != 0),
        vault.asset_index == bytes_u16(s, 103),
        vault.strategy_index == bytes_u16(s, 105),
        vault.assets@.len() == bytes_u32(s, 107),
        forall|i: int|
            0 <= i < vault.assets@.len() ==> #[trigger] vault.assets@[i].decoded_at(
                s.subrange(111 + 99 * i, 111 + 99 * i + 99),
                0,
            ),
        vault.strategies@.len() == bytes_u32(s, 111 + 99 * (vault.assets@.len() as int)),
        forall|i: int|
            0 <= i < vault.strategies@.len() ==> #[trigger] vault.strategies@[i] == strategy_record_at(
                s.subrange(115 + 99 * (vault.assets@.len() as int) + 20 * i, 115 + 99 * (vault.assets@.len() as int) + 20 * i + 20),
                0,
            ),
{
    law_fee_layout(s, 72);
    law_le_fields(s, 103);
    law_le_fields(s, 105);
    law_le_fields(s, 107);
    crate::le::lemma_field_bound(s, 107, 4);
    let na = vault.assets@.len() as int;
    law_le_fields(s, 111 + 99 * na);
    crate::le::lemma_field_bound(s, 111 + 99 * na, 4);
    assert forall|i: int| 0 <= i < na implies #[trigger] vault.assets@[i].decoded_at(
        s.subrange(111 + 99 * i, 111 + 99 * i + 99),
        0,
    ) by {
        assert(vault.assets@[i].decoded_at(s, vault_assets_len_offset() + 4 + Asset::SPACE * i));
        law_asset_layout(vault.assets@[i], s, 111 + 99 * i);
    }
    let o = 115 + 99 * na;
    assert forall|i: int| 0 <= i < vault.strategies@.len() implies #[trigger] vault.strategies@[i] == strategy_record_at(
        s.subrange(o + 20 * i, o + 20 * i + 20),
        0,
    ) by {
        assert(vault.strategies@[i] == strategy_record_at(s, vault_strategies_len_offset(s) + 4 + StrategyRecord::SPACE * i));
        law_strategy_record_layout(s, o + 20 * i);
    }
}

/// The asset-state lookup finds the first state with the asked asset id,
/// and finds nothing exactly when no state has that id.
pub proof fn law_asset_state_lookup(states: Seq<AssetState>, asset_id: u16)
    ensures
        lookup_asset_state(states, asset_id) matches Some(st) ==> exists|i: int|
            0 <= i < states.len() && states[i] == st && st.asset_id == asset_id && forall|j: int|
                0 <= j < i ==> states[j].asset_id != asset_id,
        lookup_asset_state(states, asset_id) is None <==> forall|i: int|
            0 <= i < states.len() ==> states[i].asset_id != asset_id,
{
    if exists|i: int| 0 <= i < states.len() && states[i].asset_id == asset_id {
        let k = choose|i: int| 0 <= i < states.len() && states[i].asset_id == asset_id;
        lemma_first_state_exists(states, asset_id, k);
    }
}

proof fn lemma_first_state_exists(states: Seq<AssetState>, asset_id: u16, k: int)
    requires
        0 <= k < states.len(),
        states[k].asset_id == asset_id,
    ensures
        exists|i: int| is_first_state_with_id(states, asset_id, i),
    decreases k,
{
    if exists|j: int| 0 <= j < k && states[j].asset_id == asset_id {
        let j = choose|j: int| 0 <= j < k && states[j].asset_id == asset_id;
        lemma_first_state_exists(states, asset_id, j);
    } else {
        assert(is_first_state_with_id(states, asset_id, k));
    }
}

/// The asset lookup by mint finds the first asset with the asked mint, and
/// finds nothing exactly when no asset has that mint.
pub proof fn law_asset_mint_lookup(assets: Seq<Asset>, mint: Seq<u8>)
    ensures
        lookup_asset_by_mint(assets, mint) matches Some(a) ==> exists|i: int|
            0 <= i < assets.len() && assets[i] == a && a.mint@ == mint && forall|j: int|
                0 <= j < i ==> assets[j].mint@ != mint,
        lookup_asset_by_mint(assets, mint) is None <==> forall|i: int|
            0 <= i < assets.len() ==> assets[i].mint@ != mint,
{
    if exists|i: int| 0 <= i < assets.len() && assets[i].mint@ == mint {
        let k = choose|i: int| 0 <= i < assets.len() && assets[i].mint@ == mint;
        lemma_first_mint_exists(assets, mint, k);
    }
}

proof fn lemma_first_mint_exists(assets: Seq<Asset>, mint: Seq<u8>, k: int)
    requires
        0 <= k < assets.len(),
        assets[k].mint@ == mint,
    ensures
        exists|i: int| is_first_asset_with_mint(assets, mint, i),
    decreases k,
{
    if exists|j: int| 0 <= j < k && assets[j].mint@ == mint {
        let j = choose|j: int| 0 <= j < k && assets[j].mint@ == mint;
        lemma_first_mint_exists(assets, mint, j);
    } else {
        assert(is_first_asset_with_mint(assets, mint, k));
    }
}

/// A vault with neither strategies nor assets is worth nothing; its value is
/// the strategies' total plus the reserves' total; and each strategy adds the
/// USD value of its balance, each asset the USD value of its token-account
/// balance, at the price of the first state with its asset id (a strategy or
/// asset without such a state fails with `AssetNotFound`, a balance without a
/// value with `InvalidTokenCalculation`, the first failure in order winning).
pub proof fn law_tvl_sums(
    vault: Vault,
    strategies: Seq<StrategyRecord>,
    strategy: StrategyRecord,
    assets: Seq<Asset>,
    asset: Asset,
    states: Seq<AssetState>,
    ceiling: bool,
)
    ensures
        strategies_usd_total(Seq::empty(), states, ceiling) == Ok::<int, CarrotAmmError>(0),
        assets_usd_total(Seq::empty(), states, ceiling) == Ok::<int, CarrotAmmError>(0),
        vault.tvl(states, ceiling) matches Ok(t) ==> (strategies_usd_total(vault.strategies@, states, ceiling) matches Ok(a)
            && assets_usd_total(vault.assets@, states, ceiling) matches Ok(b) && t == a + b),
        strategies_usd_total(vault.strategies@, states, ceiling) matches Ok(a) ==> (assets_usd_total(vault.assets@, states, ceiling) matches Ok(b)
            ==> vault.tvl(states, ceiling) == (if a + b > u128::MAX {
                Err::<u128, CarrotAmmError>(CarrotAmmError::InvalidTokenCalculation)
            } else {
                Ok::<u128, CarrotAmmError>((a + b) as u128)
            })),
        strategies_usd_total(strategies.push(strategy), states, ceiling) == match strategies_usd_total(strategies, states, ceiling) {
            Err(e) => Err(e),
            Ok(t) => match lookup_asset_state(states, strategy.asset_id) {
                None => Err(CarrotAmmError::AssetNotFound),
                Some(st) => match usd_amount(strategy.balance, st.mint_decimals, st.oracle_price, st.oracle_price_expo, ceiling) {
                    None => Err(CarrotAmmError::InvalidTokenCalculation),
                    Some(v) => Ok::<int, CarrotAmmError>(t + v),
                },
            },
        },
        assets_usd_total(assets.push(asset), states, ceiling) == match assets_usd_total(assets, states, ceiling) {
            Err(e) => Err(e),
            Ok(t) => match lookup_asset_state(states, asset.asset_id) {
                None => Err(CarrotAmmError::AssetNotFound),
                Some(st) => match usd_amount(st.ata_amount, st.mint_decimals, st.oracle_price, st.oracle_price_expo, ceiling) {
                    None => Err(CarrotAmmError::InvalidTokenCalculation),
                    Some(v) => Ok::<int, CarrotAmmError>(t + v),
                },
            },
        },
{
    assert(strategies.push(strategy).drop_last() =~= strategies);
    assert(assets.push(asset).drop_last() =~= assets);
    lemma_strategies_total_nonneg(vault.strategies@, states, ceiling);
    lemma_assets_total_nonneg(vault.assets@, states, ceiling);
}

proof fn lemma_strategies_total_nonneg(strategies: Seq<StrategyRecord>, states: Seq<AssetState>, ceiling: bool)
    ensures
        strategies_usd_total(strategies, states, ceiling) matches Ok(t) ==> t >= 0,
    decreases strategies.len(),
{
    if strategies.len() > 0 {
        lemma_strategies_total_nonneg(strategies.drop_last(), states, ceiling);
    }
}

proof fn lemma_assets_total_nonneg(assets: Seq<Asset>, states: Seq<AssetState>, ceiling: bool)
    ensures
        assets_usd_total(assets, states, ceiling) matches Ok(t) ==> t >= 0,
    decreases assets.len(),
{
    if assets.len() > 0 {
        lemma_assets_total_nonneg(assets.drop_last(), states, ceiling);
    }
}

/// The performance fees of the strategies add up one by one: each adds the fee
/// on its net earnings at the price of the first state with its asset id, and
/// the total fails with `InvalidFeeCalculation` once it exceeds `u64::MAX`
/// (the first failure in order winning); no strategies, no fee.
pub proof fn law_accumulated_performance_fee_sums(
    fee: Fee,
    strategies: Seq<StrategyRecord>,
    strategy: StrategyRecord,
    states: Seq<AssetState>,
    shares_supply: u64,
    shares_decimals: u8,
    vault_tvl: u128,
)
    ensures
        accumulated_performance_fee(fee, Seq::empty(), states, shares_supply, shares_decimals, vault_tvl) == Ok::<u64, CarrotAmmError>(0),
        accumulated_performance_fee(fee, strategies.push(strategy), states, shares_supply, shares_decimals, vault_tvl)
            == match accumulated_performance_fee(fee, strategies, states, shares_supply, shares_decimals, vault_tvl) {
            Err(e) => Err(e),
            Ok(total) => match lookup_asset_state(states, strategy.asset_id) {
                None => Err(CarrotAmmError::AssetNotFound),
                Some(st) => match fee.performance_fee_shares(
                    strategy.net_earnings,
                    (st.oracle_price, st.oracle_price_expo, st.mint_decimals),
                    shares_supply,
                    shares_decimals,
                    vault_tvl,
                ) {
                    Err(e) => Err(e),
                    Ok(f) => if total + f > u64::MAX {
                        Err(CarrotAmmError::InvalidFeeCalculation)
                    } else {
                        Ok::<u64, CarrotAmmError>((total + f) as u64)
                    },
                },
            },
        },
{
    assert(strategies.push(strategy).drop_last() =~= strategies);
}

/// A vault account fits exactly when it is at least as long as its declared
/// layout: 111 bytes of fixed fields and asset count, 99 bytes per declared
/// asset, the strategy count, and 20 bytes per declared strategy.
pub proof fn law_vault_layout_fits(s: Seq<u8>)
    ensures
        vault_layout_fits(s) <==> (s.len() >= 111 && s.len() >= 115 + 99 * bytes_u32(s, 107) && s.len()
            >= 115 + 99 * bytes_u32(s, 107) + 20 * bytes_u32(s, 111 + 99 * bytes_u32(s, 107))),
{
    if s.len() >= 111 {
        law_le_fields(s, 107);
        crate::le::lemma_field_bound(s, 107, 4);
        let o = 111 + 99 * bytes_u32(s, 107);
        if s.len() >= o + 4 {
            law_le_fields(s, o);
            crate::le::lemma_field_bound(s, o, 4);
        }
    }
}

} // verus!

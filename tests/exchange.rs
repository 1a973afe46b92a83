use dex_engine::dex::{Dex, DexConfig, DexError, ORDER_SIDE_BUY, ORDER_SIDE_SELL};
use dex_engine::dex::{ORDER_STATUS_CANCELLED, ORDER_STATUS_FILLED, ORDER_STATUS_OPEN, ORDER_STATUS_PARTIALLY_FILLED};
use dex_engine::fee_engine::{FeeEngine, FI_UNIT, TX_TYPE_DEX_TRADING, TX_TYPE_POOL_SMALL};
use dex_engine::math::integer_sqrt;

const FOUNDER: u64 = 900;
const TREASURY: u64 = 901;

fn config() -> DexConfig {
    DexConfig {
        trading_fee_bps: 30,
        lp_fee_bps: 25,
        min_liquidity: 100,
        max_slippage_bps: 500,
        small_pool_limit: 10_000,
        medium_pool_limit: 100_000,
    }
}

fn exchange() -> Dex {
    let mut fees = FeeEngine::new(FOUNDER, TREASURY);
    fees.initialize_fees();
    Dex::new(config(), fees)
}

fn exchange_with_pool() -> Dex {
    let mut dex = exchange();
    assert_eq!(dex.create_pool(b"ABC", b"XYZ", 1000, 4000, 1), Ok(0));
    dex
}

#[test]
fn create_pool_mints_geometric_mean() {
    let dex = exchange_with_pool();
    let pool = dex.get_pool(0).unwrap();
    assert_eq!(pool.id, 0);
    assert_eq!(pool.reserve_a, 1000);
    assert_eq!(pool.reserve_b, 4000);
    assert_eq!(pool.lp_token_supply, 2000);
    assert_eq!(pool.total_liquidity, 2000);
    assert_eq!(pool.fee_collector, 1);
    assert_eq!(dex.get_lp_balance(0, 1), 2000);
    assert_eq!(dex.pairs[pool.pair as usize], b"ABC-XYZ".to_vec());
    assert_eq!(dex.next_pool_id(), 1);
}

#[test]
fn create_pool_rounds_square_root_down() {
    let mut dex = exchange();
    assert_eq!(dex.create_pool(b"A", b"B", 100, 101, 3), Ok(0));
    // 100 * 101 = 10100, whose square root is 100.49...
    assert_eq!(dex.get_pool(0).unwrap().lp_token_supply, 100);
    assert_eq!(dex.get_pool(0).unwrap().total_liquidity, 100);
}

#[test]
fn create_pool_charges_tiered_fee() {
    let dex = exchange_with_pool();
    assert_eq!(dex.fee_engine.get_fee(TX_TYPE_POOL_SMALL), FI_UNIT);
    assert_eq!(dex.fee_engine.total_fees_collected, FI_UNIT);
    assert_eq!(dex.fee_engine.founder_fees, FI_UNIT * 15 / 100);
    assert_eq!(dex.fee_engine.dao_fees, FI_UNIT - FI_UNIT * 15 / 100);

    let mut dex = exchange();
    assert_eq!(dex.create_pool(b"A", b"B", 50_000, 50_000, 1), Ok(0));
    assert_eq!(dex.fee_engine.total_fees_collected, FI_UNIT * 5);
    assert_eq!(dex.create_pool(b"C", b"D", 5_000, 5_000, 1), Ok(1));
    assert_eq!(dex.fee_engine.total_fees_collected, FI_UNIT * 7);
}

#[test]
fn create_pool_rejects_small_amounts() {
    let mut dex = exchange();
    assert_eq!(dex.create_pool(b"A", b"B", 99, 1000, 1), Err(DexError::AmountBelowMinimum));
    assert_eq!(dex.create_pool(b"A", b"B", 1000, 99, 1), Err(DexError::AmountBelowMinimum));
    assert_eq!(dex.next_pool_id(), 0);
    assert_eq!(dex.fee_engine.total_fees_collected, 0);
}

#[test]
fn create_pool_rejects_duplicate_pair() {
    let mut dex = exchange_with_pool();
    assert_eq!(dex.create_pool(b"ABC", b"XYZ", 500, 500, 2), Err(DexError::PoolAlreadyExists));
    // the key is directional: the reversed pair is another pool
    assert_eq!(dex.create_pool(b"XYZ", b"ABC", 500, 500, 2), Ok(1));
}

#[test]
fn create_pool_rejects_long_symbols() {
    let mut dex = exchange();
    let long = [b'Q'; 33];
    assert_eq!(dex.create_pool(&long, b"B", 500, 500, 1), Err(DexError::InvalidTokenPair));
    let max = [b'Q'; 32];
    // two 32-byte symbols and the separator make 65 bytes
    assert_eq!(dex.create_pool(&max, &max, 500, 500, 1), Err(DexError::InvalidTokenPair));
    assert_eq!(dex.create_pool(&max, b"B", 500, 500, 1), Ok(0));
}

#[test]
fn create_pool_rejects_overflowing_product() {
    let mut dex = exchange();
    let big = 1u128 << 70;
    assert_eq!(dex.create_pool(b"A", b"B", big, big, 1), Err(DexError::Overflow));
    assert_eq!(dex.create_pool(b"A", b"B", u128::MAX, 1000, 1), Err(DexError::Overflow));
}

#[test]
fn add_liquidity_scenario() {
    let mut dex = exchange_with_pool();
    assert_eq!(dex.add_liquidity(0, 100, 400, 2), Ok(200));
    let pool = dex.get_pool(0).unwrap();
    assert_eq!(pool.reserve_a, 1100);
    assert_eq!(pool.reserve_b, 4400);
    assert_eq!(pool.lp_token_supply, 2200);
    assert_eq!(pool.total_liquidity, 2200);
    assert_eq!(dex.get_lp_balance(0, 1), 2000);
    assert_eq!(dex.get_lp_balance(0, 2), 200);
}

#[test]
fn add_liquidity_mints_smaller_side() {
    let mut dex = exchange_with_pool();
    // 100 of A is worth 200 shares, 800 of B 400: 200 are minted
    assert_eq!(dex.add_liquidity(0, 100, 800, 2), Ok(200));
    let pool = dex.get_pool(0).unwrap();
    assert_eq!(pool.reserve_a, 1100);
    assert_eq!(pool.reserve_b, 4800);
    assert_eq!(pool.lp_token_supply, 2200);
    // a second deposit by the same provider adds to the position
    assert_eq!(dex.add_liquidity(0, 11, 48, 2), Ok(22));
    assert_eq!(dex.get_lp_balance(0, 2), 222);
    assert_eq!(dex.get_lp_balance(0, 1) + dex.get_lp_balance(0, 2), dex.get_pool(0).unwrap().lp_token_supply);
}

#[test]
fn add_liquidity_unknown_pool() {
    let mut dex = exchange_with_pool();
    assert_eq!(dex.add_liquidity(1, 100, 400, 2), Err(DexError::PoolNotFound));
}

#[test]
fn add_liquidity_overflow() {
    let mut dex = exchange_with_pool();
    assert_eq!(dex.add_liquidity(0, u128::MAX, 1, 2), Err(DexError::Overflow));
    assert_eq!(dex.get_pool(0).unwrap().reserve_a, 1000);
}

#[test]
fn amm_trade_scenario() {
    let mut dex = exchange_with_pool();
    assert_eq!(dex.add_liquidity(0, 100, 400, 2), Ok(200));
    let before = dex.fee_engine.total_fees_collected;
    let receipt = dex.amm_trade(0, b"ABC", 100, 1, 5).unwrap();
    // 100 * 30 / 10000 rounds down to 0, so all 100 are priced
    assert_eq!(receipt.fee, 0);
    assert_eq!(receipt.amount_out, 4400 * 100 / (1100 + 100));
    assert_eq!(receipt.amount_out, 366);
    let pool = dex.get_pool(0).unwrap();
    assert_eq!(pool.reserve_a, 1200);
    assert_eq!(pool.reserve_b, 4400 - 366);
    assert!(pool.reserve_a * pool.reserve_b >= 1100 * 4400);
    assert_eq!(dex.fee_engine.total_fees_collected, before + dex.fee_engine.get_fee(TX_TYPE_DEX_TRADING));
    assert_eq!(dex.get_trading_volume(b"ABC-XYZ"), 100);
}

#[test]
fn amm_trade_keeps_fee_in_pool() {
    let mut dex = exchange();
    assert_eq!(dex.create_pool(b"A", b"B", 1_000_000, 1_000_000, 1), Ok(0));
    let receipt = dex.amm_trade(0, b"B", 10_000, 0, 5).unwrap();
    assert_eq!(receipt.fee, 30);
    assert_eq!(receipt.amount_out, 1_000_000 * 9_970 / (1_000_000 + 9_970));
    let pool = dex.get_pool(0).unwrap();
    assert_eq!(pool.reserve_b, 1_010_000);
    assert_eq!(pool.reserve_a, 1_000_000 - receipt.amount_out);
    assert!(pool.reserve_a * pool.reserve_b >= 1_000_000 * 1_000_000);
    assert_eq!(dex.get_amm_price(0), Some((pool.reserve_a, pool.reserve_b)));
}

#[test]
fn amm_trade_slippage() {
    let mut dex = exchange_with_pool();
    assert_eq!(dex.add_liquidity(0, 100, 400, 2), Ok(200));
    assert_eq!(dex.amm_trade(0, b"ABC", 100, 367, 5), Err(DexError::SlippageExceeded));
    assert_eq!(dex.get_pool(0).unwrap().reserve_a, 1100);
    assert_eq!(dex.get_trading_volume(b"ABC-XYZ"), 0);
    assert!(dex.amm_trade(0, b"ABC", 100, 366, 5).is_ok());
}

#[test]
fn amm_trade_errors() {
    let mut dex = exchange_with_pool();
    assert_eq!(dex.amm_trade(3, b"ABC", 100, 0, 5), Err(DexError::PoolNotFound));
    assert_eq!(dex.amm_trade(0, b"QQQ", 100, 0, 5), Err(DexError::InvalidTokenPair));
    assert_eq!(dex.amm_trade(0, b"ABC-XYZ", 100, 0, 5), Err(DexError::InvalidTokenPair));
    assert_eq!(dex.amm_trade(0, b"XYZ", u128::MAX, 0, 5), Err(DexError::Overflow));
}

#[test]
fn amm_trade_fee_above_input_underflows() {
    let mut c = config();
    c.trading_fee_bps = 20_000;
    let mut fees = FeeEngine::new(FOUNDER, TREASURY);
    fees.initialize_fees();
    let mut dex = Dex::new(c, fees);
    assert_eq!(dex.create_pool(b"A", b"B", 1000, 1000, 1), Ok(0));
    assert_eq!(dex.amm_trade(0, b"A", 100, 0, 5), Err(DexError::Underflow));
    assert_eq!(dex.calculate_amm_output(1000, 1000, 100), None);
}

#[test]
fn calculate_amm_output_formula() {
    let dex = exchange();
    assert_eq!(dex.calculate_amm_output(1100, 4400, 100), Some(366));
    assert_eq!(dex.calculate_amm_output(1_000_000, 1_000_000, 10_000), Some(1_000_000 * 9_970 / 1_009_970));
    assert_eq!(dex.calculate_amm_output(0, 0, 0), None);
    assert_eq!(dex.get_amm_price(0), None);
}

#[test]
fn integer_sqrt_values() {
    assert_eq!(integer_sqrt(0), 0);
    assert_eq!(integer_sqrt(1), 1);
    assert_eq!(integer_sqrt(8), 2);
    assert_eq!(integer_sqrt(9), 3);
    assert_eq!(integer_sqrt(4_000_000), 2000);
    assert_eq!(integer_sqrt(u128::MAX), u64::MAX as u128);
}

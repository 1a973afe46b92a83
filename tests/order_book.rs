use dex_engine::dex::{Dex, DexConfig, DexError, ORDER_SIDE_BUY, ORDER_SIDE_SELL};
use dex_engine::dex::{ORDER_STATUS_CANCELLED, ORDER_STATUS_FILLED, ORDER_STATUS_OPEN, ORDER_STATUS_PARTIALLY_FILLED};
use dex_engine::fee_engine::{FeeEngine, TX_TYPE_DEX_TRADING};
use dex_engine::order_book::MatchFill;

fn book() -> Dex {
    let mut fees = FeeEngine::new(900, 901);
    fees.initialize_fees();
    let config = DexConfig {
        trading_fee_bps: 30,
        lp_fee_bps: 25,
        min_liquidity: 100,
        max_slippage_bps: 500,
        small_pool_limit: 10_000,
        medium_pool_limit: 100_000,
    };
    Dex::new(config, fees)
}

fn pair() -> Vec<u8> {
    b"ABC-XYZ".to_vec()
}

#[test]
fn place_order_rests_when_nothing_crosses() {
    let mut dex = book();
    let r = dex.place_order(pair(), ORDER_SIDE_BUY, 50, 10, 1).unwrap();
    assert_eq!(r.order_id, 0);
    assert_eq!(r.filled, 0);
    assert_eq!(r.matches, 0);
    assert!(r.fills.is_empty());
    let o = dex.get_order(0).unwrap();
    assert_eq!(o.trader, 1);
    assert_eq!(o.amount, 50);
    assert_eq!(o.price, 10);
    assert_eq!(o.filled_amount, 0);
    assert_eq!(o.status, ORDER_STATUS_OPEN);
    assert!(dex.is_resting(0));
    assert_eq!(dex.next_order_id(), 1);
    assert_eq!(dex.fee_engine.total_fees_collected, 0);
}

#[test]
fn matching_scenario() {
    let mut dex = book();
    dex.place_order(pair(), ORDER_SIDE_BUY, 50, 10, 1).unwrap();
    let r = dex.place_order(pair(), ORDER_SIDE_SELL, 30, 10, 2).unwrap();
    assert_eq!(r.order_id, 1);
    assert_eq!(r.filled, 30);
    assert_eq!(r.matches, 1);
    assert_eq!(r.fills, vec![MatchFill { maker_order_id: 0, amount: 30, price: 10 }]);
    let buy = dex.get_order(0).unwrap();
    assert_eq!(buy.filled_amount, 30);
    assert_eq!(buy.status, ORDER_STATUS_PARTIALLY_FILLED);
    assert!(dex.is_resting(0));
    let sell = dex.get_order(1).unwrap();
    assert_eq!(sell.filled_amount, 30);
    assert_eq!(sell.status, ORDER_STATUS_FILLED);
    assert!(!dex.is_resting(1));
    assert_eq!(dex.fee_engine.total_fees_collected, dex.fee_engine.get_fee(TX_TYPE_DEX_TRADING));
}

#[test]
fn matching_best_price_first() {
    let mut dex = book();
    dex.place_order(pair(), ORDER_SIDE_SELL, 10, 12, 1).unwrap();
    dex.place_order(pair(), ORDER_SIDE_SELL, 10, 9, 2).unwrap();
    dex.place_order(pair(), ORDER_SIDE_SELL, 10, 11, 3).unwrap();
    let r = dex.place_order(pair(), ORDER_SIDE_BUY, 15, 11, 4).unwrap();
    assert_eq!(r.filled, 15);
    assert_eq!(r.matches, 2);
    assert_eq!(
        r.fills,
        vec![
            MatchFill { maker_order_id: 1, amount: 10, price: 9 },
            MatchFill { maker_order_id: 2, amount: 5, price: 11 },
        ]
    );
    assert_eq!(dex.get_order(1).unwrap().status, ORDER_STATUS_FILLED);
    assert_eq!(dex.get_order(2).unwrap().filled_amount, 5);
    assert_eq!(dex.get_order(2).unwrap().status, ORDER_STATUS_PARTIALLY_FILLED);
    assert_eq!(dex.get_order(0).unwrap().filled_amount, 0);
    assert_eq!(dex.get_order(3).unwrap().status, ORDER_STATUS_FILLED);
    assert!(!dex.is_resting(3));
}

#[test]
fn matching_earliest_first_at_one_price() {
    let mut dex = book();
    dex.place_order(pair(), ORDER_SIDE_BUY, 10, 20, 1).unwrap();
    dex.place_order(pair(), ORDER_SIDE_BUY, 10, 20, 2).unwrap();
    let r = dex.place_order(pair(), ORDER_SIDE_SELL, 12, 18, 3).unwrap();
    assert_eq!(r.filled, 12);
    assert_eq!(dex.get_order(0).unwrap().status, ORDER_STATUS_FILLED);
    assert_eq!(dex.get_order(1).unwrap().filled_amount, 2);
    assert!(!dex.is_resting(0));
    assert!(dex.is_resting(1));
}

#[test]
fn unfilled_remainder_rests() {
    let mut dex = book();
    dex.place_order(pair(), ORDER_SIDE_SELL, 10, 10, 1).unwrap();
    let r = dex.place_order(pair(), ORDER_SIDE_BUY, 25, 10, 2).unwrap();
    assert_eq!(r.filled, 10);
    let o = dex.get_order(1).unwrap();
    assert_eq!(o.status, ORDER_STATUS_PARTIALLY_FILLED);
    assert!(dex.is_resting(1));
    assert_eq!(dex.get_order_book_prices(b"ABC-XYZ"), None);
    dex.place_order(pair(), ORDER_SIDE_SELL, 5, 12, 3).unwrap();
    assert_eq!(dex.get_order_book_prices(b"ABC-XYZ"), Some((10, 12)));
}

#[test]
fn other_pairs_do_not_match() {
    let mut dex = book();
    dex.place_order(b"A-B".to_vec(), ORDER_SIDE_SELL, 10, 5, 1).unwrap();
    let r = dex.place_order(b"A-C".to_vec(), ORDER_SIDE_BUY, 10, 9, 2).unwrap();
    assert_eq!(r.filled, 0);
    assert_eq!(dex.get_order_book_prices(b"A-B"), None);
    assert_eq!(dex.get_order_book_prices(b"A-C"), None);
}

#[test]
fn best_bid_and_ask() {
    let mut dex = book();
    dex.place_order(pair(), ORDER_SIDE_BUY, 5, 8, 1).unwrap();
    dex.place_order(pair(), ORDER_SIDE_BUY, 5, 9, 1).unwrap();
    dex.place_order(pair(), ORDER_SIDE_SELL, 5, 13, 2).unwrap();
    dex.place_order(pair(), ORDER_SIDE_SELL, 5, 11, 2).unwrap();
    assert_eq!(dex.get_order_book_prices(b"ABC-XYZ"), Some((9, 11)));
    assert_eq!(dex.get_order_book_prices(b"QQQ"), None);
}

#[test]
fn place_order_rejects_bad_input() {
    let mut dex = book();
    assert_eq!(dex.place_order(pair(), ORDER_SIDE_BUY, 0, 10, 1), Err(DexError::AmountBelowMinimum));
    assert_eq!(dex.place_order(pair(), ORDER_SIDE_BUY, 10, 0, 1), Err(DexError::AmountBelowMinimum));
    assert_eq!(dex.place_order(pair(), 2, 10, 10, 1), Err(DexError::InvalidTokenPair));
    assert_eq!(dex.place_order(vec![b'P'; 65], ORDER_SIDE_BUY, 10, 10, 1), Err(DexError::InvalidTokenPair));
    assert_eq!(dex.next_order_id(), 0);
}

#[test]
fn price_level_capacity() {
    let mut dex = book();
    for i in 0..99u64 {
        assert_eq!(dex.place_order(pair(), ORDER_SIDE_BUY, 1, 10, i).unwrap().order_id, i);
    }
    // the hundredth order still fits
    assert_eq!(dex.place_order(pair(), ORDER_SIDE_BUY, 1, 10, 99).unwrap().order_id, 99);
    assert_eq!(dex.place_order(pair(), ORDER_SIDE_BUY, 1, 10, 100), Err(DexError::Overflow));
    // other levels and the other side are not affected
    assert!(dex.place_order(pair(), ORDER_SIDE_BUY, 1, 9, 100).is_ok());
    assert!(dex.place_order(pair(), ORDER_SIDE_SELL, 1, 11, 100).is_ok());
    // cancelling one frees a place
    assert_eq!(dex.cancel_order(5, 5), Ok(1));
    assert!(dex.place_order(pair(), ORDER_SIDE_BUY, 1, 10, 101).is_ok());
}

#[test]
fn cancel_open_order_round_trip() {
    let mut dex = book();
    dex.place_order(pair(), ORDER_SIDE_BUY, 50, 10, 1).unwrap();
    assert_eq!(dex.cancel_order(0, 1), Ok(50));
    assert_eq!(dex.get_order(0).unwrap().status, ORDER_STATUS_CANCELLED);
    assert!(!dex.is_resting(0));
    assert_eq!(dex.cancel_order(0, 1), Err(DexError::OrderNotOpen));
}

#[test]
fn cancel_partially_filled_reports_remainder() {
    let mut dex = book();
    dex.place_order(pair(), ORDER_SIDE_BUY, 50, 10, 1).unwrap();
    dex.place_order(pair(), ORDER_SIDE_SELL, 30, 10, 2).unwrap();
    assert_eq!(dex.cancel_order(0, 1), Ok(20));
    assert_eq!(dex.cancel_order(1, 2), Err(DexError::OrderNotOpen));
    // a later sell finds nothing to trade with
    let r = dex.place_order(pair(), ORDER_SIDE_SELL, 5, 10, 2).unwrap();
    assert_eq!(r.filled, 0);
}

#[test]
fn cancel_order_errors() {
    let mut dex = book();
    dex.place_order(pair(), ORDER_SIDE_BUY, 50, 10, 1).unwrap();
    assert_eq!(dex.cancel_order(7, 1), Err(DexError::OrderNotFound));
    assert_eq!(dex.cancel_order(0, 2), Err(DexError::InsufficientBalance));
    assert_eq!(dex.get_order(0).unwrap().status, ORDER_STATUS_OPEN);
}

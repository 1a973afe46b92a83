use dex_engine::fee_engine::{FeeEngine, FeeError, FI_UNIT};
use dex_engine::fee_engine::{TX_TYPE_DEX_TRADING, TX_TYPE_GAS_FEE, TX_TYPE_GOVERNANCE_PROPOSAL, TX_TYPE_POOL_LARGE};
use dex_engine::weights::{RuntimeDbWeight, SubstrateWeight, Weight};

#[test]
fn default_schedule() {
    let mut fees = FeeEngine::new(1, 2);
    assert_eq!(fees.get_fee(TX_TYPE_DEX_TRADING), 0);
    fees.on_initialize();
    assert_eq!(fees.get_fee(TX_TYPE_GAS_FEE), FI_UNIT / 100);
    assert_eq!(fees.get_fee(TX_TYPE_DEX_TRADING), FI_UNIT / 100);
    assert_eq!(fees.get_fee(TX_TYPE_POOL_LARGE), FI_UNIT * 5);
    assert_eq!(fees.get_fee(TX_TYPE_GOVERNANCE_PROPOSAL), FI_UNIT / 2);
    assert_eq!(fees.get_fee(17), 0);
    assert!(fees.check_fee(TX_TYPE_DEX_TRADING, FI_UNIT / 100));
    assert!(!fees.check_fee(TX_TYPE_DEX_TRADING, FI_UNIT / 100 - 1));
}

#[test]
fn on_initialize_keeps_a_set_schedule() {
    let mut fees = FeeEngine::new(1, 2);
    assert_eq!(fees.update_fee(1, TX_TYPE_GAS_FEE, 7), Ok(()));
    fees.on_initialize();
    assert_eq!(fees.get_fee(TX_TYPE_GAS_FEE), 7);
    assert_eq!(fees.get_fee(TX_TYPE_DEX_TRADING), 0);
}

#[test]
fn update_fee_rules() {
    let mut fees = FeeEngine::new(1, 2);
    assert_eq!(fees.update_fee(2, TX_TYPE_GAS_FEE, 7), Err(FeeError::InsufficientFee));
    assert_eq!(fees.update_fee(1, TX_TYPE_GAS_FEE, 0), Err(FeeError::InvalidFeeAmount));
    assert_eq!(fees.update_fee(1, TX_TYPE_GAS_FEE, 7), Ok(()));
    assert_eq!(fees.get_fee(TX_TYPE_GAS_FEE), 7);
}

#[test]
fn collect_fee_splits() {
    let mut fees = FeeEngine::new(1, 2);
    assert_eq!(fees.collect_fee(5, TX_TYPE_GAS_FEE, 1000), Ok(()));
    assert_eq!(fees.total_fees_collected, 1000);
    assert_eq!(fees.founder_fees, 150);
    assert_eq!(fees.dao_fees, 850);
    assert_eq!(fees.collect_fee(5, TX_TYPE_GAS_FEE, 7), Ok(()));
    assert_eq!(fees.founder_fees, 151);
    assert_eq!(fees.dao_fees, 856);
    assert_eq!(fees.collect_fee(5, TX_TYPE_GAS_FEE, u128::MAX), Err(FeeError::Overflow));
    assert_eq!(fees.total_fees_collected, 1007);
}

#[test]
fn withdraw_shares() {
    let mut fees = FeeEngine::new(1, 2);
    assert_eq!(fees.withdraw_founder_fees(1), Err(FeeError::NoFeesAvailable));
    assert_eq!(fees.collect_fee(5, TX_TYPE_GAS_FEE, 1000), Ok(()));
    assert_eq!(fees.withdraw_founder_fees(2), Err(FeeError::InsufficientFee));
    assert_eq!(fees.withdraw_dao_fees(1), Err(FeeError::InsufficientFee));
    assert_eq!(fees.withdraw_founder_fees(1), Ok(150));
    assert_eq!(fees.founder_fees, 0);
    assert_eq!(fees.withdraw_dao_fees(2), Ok(850));
    assert_eq!(fees.dao_fees, 0);
    assert_eq!(fees.withdraw_dao_fees(2), Err(FeeError::NoFeesAvailable));
    assert_eq!(fees.total_fees_collected, 1000);
}

#[test]
fn governance_weights() {
    let w = SubstrateWeight { db: RuntimeDbWeight { read: 25_000, write: 100_000 } };
    assert_eq!(w.create_proposal(), Weight { ref_time: 135_000, proof_size: 0 });
    assert_eq!(w.vote(), Weight::from_parts(135_000, 0));
    assert_eq!(w.remove_member(), w.add_member());
    let big = SubstrateWeight { db: RuntimeDbWeight { read: u64::MAX, write: 1 } };
    assert_eq!(big.execute_proposal().ref_time, u64::MAX);
    assert_eq!(w.db.reads(3), Weight::from_parts(75_000, 0));
    assert_eq!(Weight::from_parts(u64::MAX, 1).saturating_add(Weight::from_parts(1, 2)), Weight::from_parts(u64::MAX, 3));
}

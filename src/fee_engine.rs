//! Fixed protocol fees per transaction type, with every collected fee split
//! between the founder (15%) and the DAO treasury (the rest).
use vstd::prelude::*;

verus! {

/// Account identifier.
pub type AccountId = u64;

/// Token amount.
pub type Balance = u128;

/// Kind of operation that a fee is charged for.
pub type TransactionType = u8;

pub const TX_TYPE_GAS_FEE: TransactionType = 0;
pub const TX_TYPE_BRIDGE_SMALL: TransactionType = 1;
pub const TX_TYPE_BRIDGE_MEDIUM: TransactionType = 2;
pub const TX_TYPE_BRIDGE_LARGE: TransactionType = 3;
pub const TX_TYPE_NFT_BRIDGE: TransactionType = 4;
pub const TX_TYPE_DEX_TRADING: TransactionType = 5;
pub const TX_TYPE_POOL_SMALL: TransactionType = 6;
pub const TX_TYPE_POOL_MEDIUM: TransactionType = 7;
pub const TX_TYPE_POOL_LARGE: TransactionType = 8;
pub const TX_TYPE_POOL_OPERATIONS: TransactionType = 9;
pub const TX_TYPE_TOKEN_CREATION: TransactionType = 10;
pub const TX_TYPE_NFT_MINTING_SMALL: TransactionType = 11;
pub const TX_TYPE_NFT_MINTING_MEDIUM: TransactionType = 12;
pub const TX_TYPE_NFT_MINTING_LARGE: TransactionType = 13;
pub const TX_TYPE_NFT_MINTING_XLARGE: TransactionType = 14;
pub const TX_TYPE_VAULT_CREATION: TransactionType = 15;
pub const TX_TYPE_GOVERNANCE_PROPOSAL: TransactionType = 16;

/// Smallest units in one FI token (twelve decimal places).
pub const FI_UNIT: u128 = 1_000_000_000_000;

/// Number of distinct transaction types (every `u8`).
pub const NUM_TX_TYPES: usize = 256;

/// Percentage of each collected fee that goes to the founder.
pub const FOUNDER_SHARE_PERCENT: u128 = 15;

/// Errors of the fee engine.
#[derive(Clone, Copy, Debug, PartialEq, Eq, Structural)]
pub enum FeeError {
    /// The caller may not perform this operation (or paid too little).
    InsufficientFee,
    /// Transaction type not found in the fee schedule.
    UnknownTransactionType,
    /// Fee amount is zero or invalid.
    InvalidFeeAmount,
    /// No fees available to withdraw.
    NoFeesAvailable,
    /// Operation would overflow.
    Overflow,
    /// Operation would underflow.
    Underflow,
}

/// Founder's share of a collected fee.
pub open spec fn founder_share_of(amount: int) -> int {
    amount * 15 / 100
}

/// Fee engine state: the fee schedule and the running totals.
pub struct FeeEngine {
    /// Fixed fee of each transaction type, indexed by the type; 0 when unset.
    pub fixed_fees: Vec<Balance>,
    /// Every fee collected so far.
    pub total_fees_collected: Balance,
    /// Founder's share not yet withdrawn.
    pub founder_fees: Balance,
    /// DAO treasury's share not yet withdrawn.
    pub dao_fees: Balance,
    /// The account that may update fees and withdraw the founder's share.
    pub founder_account: AccountId,
    /// The account that may withdraw the DAO treasury's share.
    pub dao_treasury_account: AccountId,
}

impl FeeEngine {
    /// The schedule covers every transaction type, and the shares not yet
    /// withdrawn never exceed what was collected.
    pub open spec fn wf(&self) -> bool {
        &&& self.fixed_fees@.len() == NUM_TX_TYPES
        &&& self.founder_fees + self.dao_fees <= self.total_fees_collected
    }

    /// The fixed fee of `tx`.
    pub open spec fn fee_of(&self, tx: TransactionType) -> Balance {
        self.fixed_fees@[tx as int]
    }

    /// The engine after recording a collected fee of `amount`.
    pub open spec fn after_collect(&self, amount: Balance) -> FeeEngine {
        FeeEngine {
            total_fees_collected: (self.total_fees_collected + amount) as Balance,
            founder_fees: (self.founder_fees + founder_share_of(amount as int)) as Balance,
            dao_fees: (self.dao_fees + amount - founder_share_of(amount as int)) as Balance,
            ..*self
        }
    }

    /// Whether `collect_fee` of `amount` succeeds in this state.
    pub open spec fn can_collect_spec(&self, amount: Balance) -> bool {
        &&& amount * 15 <= u128::MAX
        &&& self.total_fees_collected + amount <= u128::MAX
    }

    /// The schedule has no fee set at all.
    pub open spec fn schedule_empty(&self) -> bool {
        forall|i: int| 0 <= i < self.fixed_fees@.len() ==> self.fixed_fees@[i] == 0
    }

    /// An engine with an empty fee schedule and nothing collected.
    pub fn new(founder_account: AccountId, dao_treasury_account: AccountId) -> (r: FeeEngine)
        ensures
            r.wf(),
            r.schedule_empty(),
            r.total_fees_collected == 0,
            r.founder_fees == 0,
            r.dao_fees == 0,
            r.founder_account == founder_account,
            r.dao_treasury_account == dao_treasury_account,
    {
        let mut fixed_fees: Vec<Balance> = Vec::new();
        let mut i: usize = 0;
        while i < NUM_TX_TYPES
            invariant
                i <= NUM_TX_TYPES,
                fixed_fees@.len() == i,
                forall|j: int| 0 <= j < i ==> fixed_fees@[j] == 0,
            decreases NUM_TX_TYPES - i,
        {
            fixed_fees.push(0);
            i = i + 1;
        }
        FeeEngine {
            fixed_fees,
            total_fees_collected: 0,
            founder_fees: 0,
            dao_fees: 0,
            founder_account,
            dao_treasury_account,
        }
    }

    /// The fixed fee of a transaction type.
    pub fn get_fee(&self, transaction_type: TransactionType) -> (r: Balance)
        requires
            self.wf(),
        ensures
            r == self.fee_of(transaction_type),
    {
        self.fixed_fees[transaction_type as usize]
    }

    /// Whether `fee_paid` covers the fixed fee of the transaction type.
    pub fn check_fee(&self, transaction_type: TransactionType, fee_paid: Balance) -> (r: bool)
        requires
            self.wf(),
        ensures
            r == (fee_paid >= self.fee_of(transaction_type)),
    {
        fee_paid >= self.get_fee(transaction_type)
    }

    /// Whether collecting `amount` would succeed now.
    pub fn can_collect(&self, amount: Balance) -> (r: bool)
        requires
            self.wf(),
        ensures
            r == self.can_collect_spec(amount),
    {
        amount <= u128::MAX / 15 && amount <= u128::MAX - self.total_fees_collected
    }

    /// Records a collected fee and splits it: 15% (rounded down) to the
    /// founder, the rest to the DAO treasury. Fails, changing nothing, when a
    /// total would overflow.
    pub fn collect_fee(
        &mut self,
        payer: AccountId,
        transaction_type: TransactionType,
        fee_amount: Balance,
    ) -> (r: Result<(), FeeError>)
        requires
            old(self).wf(),
        ensures
            final(self).wf(),
            r.is_ok() == old(self).can_collect_spec(fee_amount),
            r.is_err() ==> *final(self) == *old(self) && r == Err::<(), FeeError>(FeeError::Overflow),
            r.is_ok() ==> *final(self) == old(self).after_collect(fee_amount),
    {
        let scaled = match fee_amount.checked_mul(FOUNDER_SHARE_PERCENT) {
            Some(v) => v,
            None => return Err(FeeError::Overflow),
        };
        let founder_share = scaled / 100;
        let dao_share = fee_amount - founder_share;
        let total = match self.total_fees_collected.checked_add(fee_amount) {
            Some(v) => v,
            None => return Err(FeeError::Overflow),
        };
        // the shares not withdrawn stay within the total collected, so neither can overflow
        let founder = self.founder_fees + founder_share;
        let dao = self.dao_fees + dao_share;
        self.total_fees_collected = total;
        self.founder_fees = founder;
        self.dao_fees = dao;
        Ok(())
    }

    /// Sets the fee of a transaction type. Only the founder may do so, and
    /// the fee may not be zero.
    pub fn update_fee(
        &mut self,
        who: AccountId,
        transaction_type: TransactionType,
        new_fee: Balance,
    ) -> (r: Result<(), FeeError>)
        requires
            old(self).wf(),
        ensures
            final(self).wf(),
            who != old(self).founder_account ==> r == Err::<(), FeeError>(FeeError::InsufficientFee),
            who == old(self).founder_account && new_fee == 0 ==> r == Err::<(), FeeError>(
                FeeError::InvalidFeeAmount,
            ),
            r.is_err() ==> *final(self) == *old(self),
            who == old(self).founder_account && new_fee != 0 ==> {
                &&& r.is_ok()
                &&& final(self).fixed_fees@ == old(self).fixed_fees@.update(transaction_type as int, new_fee)
                &&& final(self).total_fees_collected == old(self).total_fees_collected
                &&& final(self).founder_fees == old(self).founder_fees
                &&& final(self).dao_fees == old(self).dao_fees
                &&& final(self).founder_account == old(self).founder_account
                &&& final(self).dao_treasury_account == old(self).dao_treasury_account
            },
    {
        if who != self.founder_account {
            return Err(FeeError::InsufficientFee);
        }
        if new_fee == 0 {
            return Err(FeeError::InvalidFeeAmount);
        }
        self.fixed_fees.set(transaction_type as usize, new_fee);
        Ok(())
    }

    /// Hands the founder's accumulated share out and resets it to zero; the
    /// caller credits the returned amount to the founder's balance.
    pub fn withdraw_founder_fees(&mut self, who: AccountId) -> (r: Result<Balance, FeeError>)
        requires
            old(self).wf(),
        ensures
            final(self).wf(),
            who != old(self).founder_account ==> r == Err::<Balance, FeeError>(FeeError::InsufficientFee),
            who == old(self).founder_account && old(self).founder_fees == 0 ==> r == Err::<Balance, FeeError>(
                FeeError::NoFeesAvailable,
            ),
            r.is_err() ==> *final(self) == *old(self),
            who == old(self).founder_account && old(self).founder_fees != 0 ==> {
                &&& r == Ok::<Balance, FeeError>(old(self).founder_fees)
                &&& *final(self) == (FeeEngine { founder_fees: 0, ..*old(self) })
            },
    {
        if who != self.founder_account {
            return Err(FeeError::InsufficientFee);
        }
        let amount = self.founder_fees;
        if amount == 0 {
            return Err(FeeError::NoFeesAvailable);
        }
        self.founder_fees = 0;
        Ok(amount)
    }

    /// Hands the DAO treasury's accumulated share out and resets it to zero;
    /// the caller credits the returned amount to the treasury's balance.
    pub fn withdraw_dao_fees(&mut self, who: AccountId) -> (r: Result<Balance, FeeError>)
        requires
            old(self).wf(),
        ensures
            final(self).wf(),
            who != old(self).dao_treasury_account ==> r == Err::<Balance, FeeError>(
                FeeError::InsufficientFee,
            ),
            who == old(self).dao_treasury_account && old(self).dao_fees == 0 ==> r == Err::<Balance, FeeError>(
                FeeError::NoFeesAvailable,
            ),
            r.is_err() ==> *final(self) == *old(self),
            who == old(self).dao_treasury_account && old(self).dao_fees != 0 ==> {
                &&& r == Ok::<Balance, FeeError>(old(self).dao_fees)
                &&& *final(self) == (FeeEngine { dao_fees: 0, ..*old(self) })
            },
    {
        if who != self.dao_treasury_account {
            return Err(FeeError::InsufficientFee);
        }
        let amount = self.dao_fees;
        if amount == 0 {
            return Err(FeeError::NoFeesAvailable);
        }
        self.dao_fees = 0;
        Ok(amount)
    }

    /// Installs the default fee schedule.
    pub fn initialize_fees(&mut self)
        requires
            old(self).wf(),
        ensures
            final(self).wf(),
            forall|t: TransactionType| #[trigger] final(self).fee_of(t) == default_fee(t),
            final(self).total_fees_collected == old(self).total_fees_collected,
            final(self).founder_fees == old(self).founder_fees,
            final(self).dao_fees == old(self).dao_fees,
            final(self).founder_account == old(self).founder_account,
            final(self).dao_treasury_account == old(self).dao_treasury_account,
    {
        let mut i: usize = 0;
        while i < NUM_TX_TYPES
            invariant
                i <= NUM_TX_TYPES,
                self.fixed_fees@.len() == NUM_TX_TYPES,
                forall|j: int| 0 <= j < i ==> self.fixed_fees@[j] == default_fee(j as u8),
                self.total_fees_collected == old(self).total_fees_collected,
                self.founder_fees == old(self).founder_fees,
                self.dao_fees == old(self).dao_fees,
                self.founder_account == old(self).founder_account,
                self.dao_treasury_account == old(self).dao_treasury_account,
            decreases NUM_TX_TYPES - i,
        {
            let fee = default_fee_exec(i as u8);
            self.fixed_fees.set(i, fee);
            i = i + 1;
        }
        assert forall|t: TransactionType| #[trigger] self.fee_of(t) == default_fee(t) by {
            assert(0 <= t as int && (t as int) < NUM_TX_TYPES);
            assert((t as int) as u8 == t);
        }
    }

    /// Block hook: installs the default schedule when no fee is set at all.
    pub fn on_initialize(&mut self)
        requires
            old(self).wf(),
        ensures
            final(self).wf(),
            old(self).schedule_empty() ==> forall|t: TransactionType| #[trigger] final(self).fee_of(t)
                == default_fee(t),
            !old(self).schedule_empty() ==> *final(self) == *old(self),
            final(self).total_fees_collected == old(self).total_fees_collected,
            final(self).founder_fees == old(self).founder_fees,
            final(self).dao_fees == old(self).dao_fees,
    {
        let mut i: usize = 0;
        let mut empty = true;
        while i < NUM_TX_TYPES
            invariant
                i <= NUM_TX_TYPES,
                self.wf(),
                empty == forall|j: int| 0 <= j < i ==> self.fixed_fees@[j] == 0,
            decreases NUM_TX_TYPES - i,
        {
            if self.fixed_fees[i] != 0 {
                empty = false;
            }
            i = i + 1;
        }
        if empty {
            self.initialize_fees();
        }
    }
}

/// The default fee of a transaction type, in smallest units.
pub open spec fn default_fee(t: TransactionType) -> int {
    if t == TX_TYPE_GAS_FEE { FI_UNIT as int / 100 }
    else if t == TX_TYPE_BRIDGE_SMALL { FI_UNIT as int / 20 }
    else if t == TX_TYPE_BRIDGE_MEDIUM { FI_UNIT as int / 10 }
    else if t == TX_TYPE_BRIDGE_LARGE { FI_UNIT as int / 2 }
    else if t == TX_TYPE_NFT_BRIDGE { FI_UNIT as int / 20 }
    else if t == TX_TYPE_DEX_TRADING { FI_UNIT as int / 100 }
    else if t == TX_TYPE_POOL_SMALL { FI_UNIT as int }
    else if t == TX_TYPE_POOL_MEDIUM { FI_UNIT as int * 2 }
    else if t == TX_TYPE_POOL_LARGE { FI_UNIT as int * 5 }
    else if t == TX_TYPE_POOL_OPERATIONS { FI_UNIT as int / 100 }
    else if t == TX_TYPE_TOKEN_CREATION { FI_UNIT as int / 2 }
    else if t == TX_TYPE_NFT_MINTING_SMALL { FI_UNIT as int / 20 }
    else if t == TX_TYPE_NFT_MINTING_MEDIUM { FI_UNIT as int / 5 }
    else if t == TX_TYPE_NFT_MINTING_LARGE { FI_UNIT as int }
    else if t == TX_TYPE_NFT_MINTING_XLARGE { FI_UNIT as int * 2 }
    else if t == TX_TYPE_VAULT_CREATION { FI_UNIT as int / 20 }
    else if t == TX_TYPE_GOVERNANCE_PROPOSAL { FI_UNIT as int / 2 }
    else { 0 }
}

/// The default fee of a transaction type.
pub fn default_fee_exec(t: TransactionType) -> (r: Balance)
    ensures
        r == default_fee(t),
{
    if t == TX_TYPE_GAS_FEE { FI_UNIT / 100 }
    else if t == TX_TYPE_BRIDGE_SMALL { FI_UNIT / 20 }
    else if t == TX_TYPE_BRIDGE_MEDIUM { FI_UNIT / 10 }
    else if t == TX_TYPE_BRIDGE_LARGE { FI_UNIT / 2 }
    else if t == TX_TYPE_NFT_BRIDGE { FI_UNIT / 20 }
    else if t == TX_TYPE_DEX_TRADING { FI_UNIT / 100 }
    else if t == TX_TYPE_POOL_SMALL { FI_UNIT }
    else if t == TX_TYPE_POOL_MEDIUM { FI_UNIT * 2 }
    else if t == TX_TYPE_POOL_LARGE { FI_UNIT * 5 }
    else if t == TX_TYPE_POOL_OPERATIONS { FI_UNIT / 100 }
    else if t == TX_TYPE_TOKEN_CREATION { FI_UNIT / 2 }
    else if t == TX_TYPE_NFT_MINTING_SMALL { FI_UNIT / 20 }
    else if t == TX_TYPE_NFT_MINTING_MEDIUM { FI_UNIT / 5 }
    else if t == TX_TYPE_NFT_MINTING_LARGE { FI_UNIT }
    else if t == TX_TYPE_NFT_MINTING_XLARGE { FI_UNIT * 2 }
    else if t == TX_TYPE_VAULT_CREATION { FI_UNIT / 20 }
    else if t == TX_TYPE_GOVERNANCE_PROPOSAL { FI_UNIT / 2 }
    else { 0 }
}

} // verus!

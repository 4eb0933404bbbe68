//! The collateral ledger: what each borrower has in custody, and how much of
//! it is free.

use vstd::prelude::*;
use vstd::slice::*;
use cosmwasm_std::MemoryStorage;
use crate::amount::{
    Amount, lemma_value_bound, lemma_bytes_round_trip, lemma_value_order, full_range,
};
use crate::store::{
    contents, calc_range_start, store_new, prefixed_get, prefixed_set, prefixed_remove,
    scan_prefixed, length_prefix, length_prefixed, keys_under, entry_keys, lemma_append_cancel,
    is_key_page, page_limit, range_start, clamp_limit, bytes_eq,
};

verus! {

/// The accrued rewards of the custody account.
#[derive(Clone, Copy, Debug, PartialEq, Eq, Default)]
pub struct BLunaAccruedRewardsResponse {
    pub rewards: u128,
}

/// The collateral asset's description.
#[derive(Clone, Debug, PartialEq, Eq)]
pub struct BAssetInfo {
    pub name: String,
    pub symbol: String,
    pub decimals: u8,
}

/// The ledger's parameters. Identities are the bytes of addresses.
#[derive(Clone, Debug, PartialEq, Eq)]
pub struct Config {
    pub owner: Vec<u8>,
    pub collateral_token: Vec<u8>,
    pub overseer_contract: Vec<u8>,
    pub market_contract: Vec<u8>,
    pub reward_contract: Vec<u8>,
    pub liquidation_contract: Vec<u8>,
    pub stable_denom: String,
    pub basset_info: BAssetInfo,
}

/// A borrower's collateral: all that is in custody, and the part of it that
/// is not pledged against debt.
#[derive(Clone, Copy, Debug, PartialEq, Eq, Structural)]
pub struct BorrowerInfo {
    pub balance: Amount,
    pub spendable: Amount,
}

impl BorrowerInfo {
    /// The free part is no more than the whole.
    pub open spec fn wf(self) -> bool {
        self.spendable.value() <= self.balance.value()
    }

    /// The pledged part: the balance less what is spendable.
    pub open spec fn locked(self) -> int {
        self.balance.value() - self.spendable.value()
    }

    /// What is read for a borrower without a record.
    pub open spec fn none() -> BorrowerInfo {
        BorrowerInfo { balance: Amount { hi: 0, lo: 0 }, spendable: Amount { hi: 0, lo: 0 } }
    }

    /// The sixty-four bytes kept for a record.
    pub open spec fn bytes(self) -> Seq<u8> {
        self.balance.bytes() + self.spendable.bytes()
    }

    /// The record that sixty-four bytes stand for.
    pub open spec fn of_bytes(s: Seq<u8>) -> BorrowerInfo {
        BorrowerInfo {
            balance: Amount::of_bytes(s.subrange(0, 32)),
            spendable: Amount::of_bytes(s.subrange(32, 64)),
        }
    }

    fn encode(&self) -> (r: Vec<u8>)
        ensures
            r@ == self.bytes(),
            r@.len() == 64,
    {
        let mut out: Vec<u8> = self.balance.to_bytes();
        let mut rest: Vec<u8> = self.spendable.to_bytes();
        out.append(&mut rest);
        out
    }

    fn decode(s: &[u8]) -> (r: BorrowerInfo)
        requires
            s@.len() == 64,
        ensures
            r == BorrowerInfo::of_bytes(s@),
    {
        let balance = Amount::from_bytes(slice_subrange(s, 0, 32));
        let spendable = Amount::from_bytes(slice_subrange(s, 32, 64));
        BorrowerInfo { balance, spendable }
    }
}

/// Reading back the bytes of a record gives the record.
pub proof fn lemma_info_round_trip(info: BorrowerInfo)
    ensures
        info.bytes().len() == 64,
        BorrowerInfo::of_bytes(info.bytes()) == info,
{
    lemma_bytes_round_trip(info.balance);
    lemma_bytes_round_trip(info.spendable);
    assert(info.bytes().subrange(0, 32) =~= info.balance.bytes());
    assert(info.bytes().subrange(32, 64) =~= info.spendable.bytes());
}

/// The table after a borrower's record was brought to `info`: the record is
/// kept while its balance is more than zero, and dropped once it is zero.
pub open spec fn with_record(
    table: Map<Seq<u8>, BorrowerInfo>,
    borrower: Seq<u8>,
    info: BorrowerInfo,
) -> Map<Seq<u8>, BorrowerInfo> {
    if info.balance.value() == 0 {
        table.remove(borrower)
    } else {
        table.insert(borrower, info)
    }
}

/// The namespace of the borrowers' records: the bytes of `borrower`.
pub open spec fn borrower_namespace() -> Seq<u8> {
    seq![98u8, 111u8, 114u8, 114u8, 111u8, 119u8, 101u8, 114u8]
}

/// What stands before a borrower's identity in the key of the record.
pub open spec fn borrower_prefix() -> Seq<u8> {
    length_prefix(borrower_namespace())
}

/// The key under which the store holds a borrower's record.
pub open spec fn stored_borrower_key(borrower: Seq<u8>) -> Seq<u8> {
    borrower_prefix() + borrower
}

/// The namespace of the borrowers' records.
fn prefix_borrower() -> (r: Vec<u8>)
    ensures
        r@ == borrower_namespace(),
        r@.len() == 8,
{
    let r = vec![98u8, 111u8, 114u8, 114u8, 111u8, 119u8, 101u8, 114u8];
    assert(r@ =~= borrower_namespace());
    r
}

/// The ledger's state: its parameters and the store that holds the table of
/// borrowers, keyed by the borrower's identity bytes behind the namespace.
pub struct CustodyStorage {
    config: Config,
    borrowers: MemoryStorage,
}

impl CustodyStorage {
    /// The parameters.
    pub closed spec fn config(&self) -> Config {
        self.config
    }

    /// The records kept, by borrower.
    pub closed spec fn borrowers(&self) -> Map<Seq<u8>, BorrowerInfo> {
        Map::new(
            |b: Seq<u8>| contents(self.borrowers).dom().contains(stored_borrower_key(b)),
            |b: Seq<u8>| BorrowerInfo::of_bytes(contents(self.borrowers)[stored_borrower_key(b)]),
        )
    }

    /// What the ledger says of a borrower: the record kept, or zeros.
    pub open spec fn borrower_info(&self, borrower: Seq<u8>) -> BorrowerInfo {
        if self.borrowers().dom().contains(borrower) {
            self.borrowers()[borrower]
        } else {
            BorrowerInfo::none()
        }
    }

    /// Every record kept is whole, its balance is more than zero, and its
    /// free part is no more than its balance.
    pub closed spec fn wf(&self) -> bool {
        forall|b: Seq<u8>| #[trigger]
            contents(self.borrowers).dom().contains(stored_borrower_key(b)) ==> {
                let bytes = contents(self.borrowers)[stored_borrower_key(b)];
                &&& bytes.len() == 64
                &&& BorrowerInfo::of_bytes(bytes).wf()
                &&& BorrowerInfo::of_bytes(bytes).balance.value() > 0
            }
    }

    /// A ledger with the given parameters and no borrower.
    pub fn new(config: Config) -> (r: CustodyStorage)
        ensures
            r.wf(),
            r.config() == config,
            r.borrowers() == Map::<Seq<u8>, BorrowerInfo>::empty(),
    {
        let r = CustodyStorage { config, borrowers: store_new() };
        assert(r.borrowers() =~= Map::<Seq<u8>, BorrowerInfo>::empty());
        r
    }
}

/// In a ledger every borrower's free part is between zero and the balance.
pub proof fn lemma_spendable_within_balance(storage: CustodyStorage, borrower: Seq<u8>)
    requires
        storage.wf(),
    ensures
        0 <= storage.borrower_info(borrower).spendable.value()
            <= storage.borrower_info(borrower).balance.value(),
{
}

/// A ledger keeps a record exactly for the borrowers whose balance is more
/// than zero.
pub proof fn lemma_kept_while_positive(storage: CustodyStorage, borrower: Seq<u8>)
    requires
        storage.wf(),
    ensures
        storage.borrowers().dom().contains(borrower) <==> storage.borrower_info(
            borrower,
        ).balance.value() > 0,
{
}

/// Replaces the parameters.
pub fn store_config(storage: &mut CustodyStorage, data: Config)
    ensures
        final(storage).config() == data,
        final(storage).borrowers() == old(storage).borrowers(),
        old(storage).wf() ==> final(storage).wf(),
{
    storage.config = data;
}

/// The parameters.
pub fn read_config(storage: &CustodyStorage) -> (r: &Config)
    ensures
        *r == storage.config(),
{
    &storage.config
}

/// Brings the borrower's record to `borrower_info`: it is kept in place of
/// any earlier one while its balance is more than zero, and dropped once the
/// balance is zero.
pub fn store_borrower_info(
    storage: &mut CustodyStorage,
    borrower: &[u8],
    borrower_info: &BorrowerInfo,
)
    requires
        old(storage).wf(),
        borrower_info.wf(),
    ensures
        final(storage).wf(),
        final(storage).config() == old(storage).config(),
        final(storage).borrowers() == with_record(
            old(storage).borrowers(),
            borrower@,
            *borrower_info,
        ),
        final(storage).borrowers().dom().contains(borrower@) <==> borrower_info.balance.value() > 0,
        final(storage).borrower_info(borrower@) == *borrower_info,
{
    proof {
        lemma_value_order(borrower_info.balance, Amount { hi: 0, lo: 0 });
        lemma_value_order(borrower_info.spendable, Amount { hi: 0, lo: 0 });
    }
    let namespace = prefix_borrower();
    if borrower_info.balance.is_zero() {
        prefixed_remove(&mut storage.borrowers, namespace.as_slice(), borrower);
    } else {
        let bytes = borrower_info.encode();
        proof {
            lemma_info_round_trip(*borrower_info);
        }
        prefixed_set(&mut storage.borrowers, namespace.as_slice(), borrower, bytes.as_slice());
    }
    proof {
        assert forall|b: Seq<u8>| #[trigger]
            stored_borrower_key(b) == stored_borrower_key(borrower@) implies b == borrower@ by {
            lemma_append_cancel(borrower_prefix(), b, borrower@);
        }
        assert(final(storage).borrowers() =~= with_record(
            old(storage).borrowers(),
            borrower@,
            *borrower_info,
        ));
    }
}

/// Drops the borrower's record, if there is one.
pub fn remove_borrower_info(storage: &mut CustodyStorage, borrower: &[u8])
    requires
        old(storage).wf(),
    ensures
        final(storage).wf(),
        final(storage).config() == old(storage).config(),
        final(storage).borrowers() == old(storage).borrowers().remove(borrower@),
{
    let namespace = prefix_borrower();
    prefixed_remove(&mut storage.borrowers, namespace.as_slice(), borrower);
    proof {
        assert forall|b: Seq<u8>| #[trigger]
            stored_borrower_key(b) == stored_borrower_key(borrower@) implies b == borrower@ by {
            lemma_append_cancel(borrower_prefix(), b, borrower@);
        }
        assert(final(storage).borrowers() =~= old(storage).borrowers().remove(borrower@));
    }
}

/// The borrower's record, or zeros where none is kept.
pub fn read_borrower_info(storage: &CustodyStorage, borrower: &[u8]) -> (r: BorrowerInfo)
    requires
        storage.wf(),
    ensures
        r == storage.borrower_info(borrower@),
        r.wf(),
{
    let namespace = prefix_borrower();
    match prefixed_get(&storage.borrowers, namespace.as_slice(), borrower) {
        Some(v) => {
            assert(contents(storage.borrowers).dom().contains(stored_borrower_key(borrower@)));
            BorrowerInfo::decode(v.as_slice())
        },
        None => BorrowerInfo { balance: Amount::zero(), spendable: Amount::zero() },
    }
}


/// Why the ledger turned a request down. The amounts are what was available.
#[derive(Clone, Copy, Debug, PartialEq, Eq, Structural)]
pub enum ContractError {
    Unauthorized,
    WithdrawAmountExceedsSpendable(Amount),
    LockAmountExceedsSpendable(Amount),
    UnlockAmountExceedsLocked(Amount),
    LiquidationAmountExceedsLocked(Amount),
}

/// An instruction to move collateral tokens, for the token contract to carry
/// out.
#[derive(Clone, Debug, PartialEq, Eq)]
pub enum TokenMessage {
    /// Move `amount` to `recipient`.
    Transfer { token: Vec<u8>, recipient: Vec<u8>, amount: Amount },
    /// Send `amount` to the liquidation contract, with the request to execute
    /// the liquidator's bid.
    ExecuteBid {
        token: Vec<u8>,
        contract: Vec<u8>,
        amount: Amount,
        liquidator: Vec<u8>,
        fee_address: Option<Vec<u8>>,
        repay_address: Option<Vec<u8>>,
    },
}

/// What was done, for the event log.
#[derive(Clone, Copy, Debug, PartialEq, Eq, Structural)]
pub enum Action {
    DepositCollateral,
    WithdrawCollateral,
    LockCollateral,
    UnlockCollateral,
    LiquidateCollateral,
}

/// The outcome of a ledger operation: the event, and the instruction to send
/// out, if any.
#[derive(Clone, Debug, PartialEq, Eq)]
pub struct Response {
    pub action: Action,
    pub amount: Amount,
    pub message: Option<TokenMessage>,
}

/// A borrower's record as a query gives it.
#[derive(Clone, Debug, PartialEq, Eq)]
pub struct BorrowerResponse {
    pub borrower: Vec<u8>,
    pub balance: Amount,
    pub spendable: Amount,
}

/// A page of borrowers' records.
#[derive(Clone, Debug, PartialEq, Eq)]
pub struct BorrowersResponse {
    pub borrowers: Vec<BorrowerResponse>,
}

impl BorrowerResponse {
    /// The record without the borrower's identity.
    pub open spec fn info(&self) -> BorrowerInfo {
        BorrowerInfo { balance: self.balance, spendable: self.spendable }
    }
}

/// The borrowers of a page, in the page's order.
pub open spec fn page_keys(page: Seq<BorrowerResponse>) -> Seq<Seq<u8>> {
    Seq::new(page.len(), |i: int| page[i].borrower@)
}

/// A page of a table: its borrowers are the page of the table's keys for the
/// start and the limit, and each entry holds the record kept for its
/// borrower.
pub open spec fn is_page(
    table: Map<Seq<u8>, BorrowerInfo>,
    start: Seq<u8>,
    limit: nat,
    page: Seq<BorrowerResponse>,
) -> bool {
    &&& is_key_page(table.dom(), start, limit, page_keys(page))
    &&& forall|i: int| 0 <= i < page.len() ==> table[(#[trigger] page[i]).borrower@] == page[i].info()
}

/// Records `amount` of new collateral for the borrower: the balance and the
/// spendable part both grow by it. No record is kept for a balance of zero.
pub fn deposit_collateral(
    storage: &mut CustodyStorage,
    borrower: &[u8],
    amount: Amount,
) -> (r: Response)
    requires
        old(storage).wf(),
        old(storage).borrower_info(borrower@).balance.value() + amount.value() < full_range(),
    ensures
        final(storage).wf(),
        final(storage).config() == old(storage).config(),
        final(storage).borrowers() == with_record(
            old(storage).borrowers(),
            borrower@,
            final(storage).borrower_info(borrower@),
        ),
        final(storage).borrower_info(borrower@).balance.value() == old(storage).borrower_info(
            borrower@,
        ).balance.value() + amount.value(),
        final(storage).borrower_info(borrower@).spendable.value() == old(storage).borrower_info(
            borrower@,
        ).spendable.value() + amount.value(),
        r.action == Action::DepositCollateral,
        r.amount == amount,
        r.message is None,
{
    let mut borrower_info = read_borrower_info(storage, borrower);
    borrower_info.balance = borrower_info.balance.add(&amount);
    borrower_info.spendable = borrower_info.spendable.add(&amount);
    store_borrower_info(storage, borrower, &borrower_info);
    Response { action: Action::DepositCollateral, amount, message: None }
}

/// Hands out spendable collateral to the borrower who asks: the amount named,
/// or all that is spendable. Balance and spendable part both shrink by it,
/// and a record whose balance reaches zero is dropped.
pub fn withdraw_collateral(
    storage: &mut CustodyStorage,
    sender: &[u8],
    amount: Option<Amount>,
) -> (r: Result<Response, ContractError>)
    requires
        old(storage).wf(),
    ensures
        final(storage).wf(),
        final(storage).config() == old(storage).config(),
        ({
            let before = old(storage).borrower_info(sender@);
            let taken = match amount {
                Some(a) => a,
                None => before.spendable,
            };
            if taken.value() > before.spendable.value() {
                &&& r == Err::<Response, ContractError>(
                    ContractError::WithdrawAmountExceedsSpendable(before.spendable),
                )
                &&& *final(storage) == *old(storage)
            } else {
                let after = final(storage).borrower_info(sender@);
                &&& after.balance.value() == before.balance.value() - taken.value()
                &&& after.spendable.value() == before.spendable.value() - taken.value()
                &&& if before.balance.value() == taken.value() {
                    &&& final(storage).borrowers() == old(storage).borrowers().remove(sender@)
                    &&& !final(storage).borrowers().dom().contains(sender@)
                    &&& after == BorrowerInfo::none()
                } else {
                    &&& final(storage).borrowers() == old(storage).borrowers().insert(sender@, after)
                    &&& final(storage).borrowers().dom().contains(sender@)
                }
                &&& r matches Ok(resp)
                &&& resp.action == Action::WithdrawCollateral
                &&& resp.amount == taken
                &&& resp.message matches Some(TokenMessage::Transfer { token, recipient, amount: sent })
                &&& token@ == old(storage).config().collateral_token@
                &&& recipient@ == sender@
                &&& sent == taken
            }
        }),
{
    let mut borrower_info = read_borrower_info(storage, sender);
    let amount = match amount {
        Some(a) => a,
        None => borrower_info.spendable,
    };
    if borrower_info.spendable.lt(&amount) {
        return Err(ContractError::WithdrawAmountExceedsSpendable(borrower_info.spendable));
    }
    borrower_info.balance = borrower_info.balance.sub(&amount);
    borrower_info.spendable = borrower_info.spendable.sub(&amount);
    store_borrower_info(storage, sender, &borrower_info);
    let message = TokenMessage::Transfer {
        token: slice_to_vec(storage.config.collateral_token.as_slice()),
        recipient: slice_to_vec(sender),
        amount,
    };
    Ok(Response { action: Action::WithdrawCollateral, amount, message: Some(message) })
}

/// Pledges `amount` of the borrower's spendable collateral, on the overseer's
/// word: the spendable part shrinks by it and the balance stays. No record is
/// kept for a balance of zero.
pub fn lock_collateral(
    storage: &mut CustodyStorage,
    sender: &[u8],
    borrower: &[u8],
    amount: Amount,
) -> (r: Result<Response, ContractError>)
    requires
        old(storage).wf(),
    ensures
        final(storage).wf(),
        final(storage).config() == old(storage).config(),
        ({
            let before = old(storage).borrower_info(borrower@);
            if sender@ != old(storage).config().overseer_contract@ {
                &&& r == Err::<Response, ContractError>(ContractError::Unauthorized)
                &&& *final(storage) == *old(storage)
            } else if amount.value() > before.spendable.value() {
                &&& r == Err::<Response, ContractError>(
                    ContractError::LockAmountExceedsSpendable(before.spendable),
                )
                &&& *final(storage) == *old(storage)
            } else {
                let after = final(storage).borrower_info(borrower@);
                &&& after.balance == before.balance
                &&& after.spendable.value() == before.spendable.value() - amount.value()
                &&& final(storage).borrowers() == with_record(
                    old(storage).borrowers(),
                    borrower@,
                    after,
                )
                &&& r matches Ok(resp)
                &&& resp.action == Action::LockCollateral
                &&& resp.amount == amount
                &&& resp.message is None
            }
        }),
{
    if !bytes_eq(sender, storage.config.overseer_contract.as_slice()) {
        return Err(ContractError::Unauthorized);
    }
    let mut borrower_info = read_borrower_info(storage, borrower);
    if borrower_info.spendable.lt(&amount) {
        return Err(ContractError::LockAmountExceedsSpendable(borrower_info.spendable));
    }
    borrower_info.spendable = borrower_info.spendable.sub(&amount);
    store_borrower_info(storage, borrower, &borrower_info);
    Ok(Response { action: Action::LockCollateral, amount, message: None })
}

/// Releases `amount` of the borrower's pledged collateral, on the overseer's
/// word: the spendable part grows by it and the balance stays. No record is
/// kept for a balance of zero.
pub fn unlock_collateral(
    storage: &mut CustodyStorage,
    sender: &[u8],
    borrower: &[u8],
    amount: Amount,
) -> (r: Result<Response, ContractError>)
    requires
        old(storage).wf(),
    ensures
        final(storage).wf(),
        final(storage).config() == old(storage).config(),
        ({
            let before = old(storage).borrower_info(borrower@);
            if sender@ != old(storage).config().overseer_contract@ {
                &&& r == Err::<Response, ContractError>(ContractError::Unauthorized)
                &&& *final(storage) == *old(storage)
            } else if amount.value() > before.locked() {
                &&& r matches Err(ContractError::UnlockAmountExceedsLocked(available))
                &&& available.value() == before.locked()
                &&& *final(storage) == *old(storage)
            } else {
                let after = final(storage).borrower_info(borrower@);
                &&& after.balance == before.balance
                &&& after.spendable.value() == before.spendable.value() + amount.value()
                &&& final(storage).borrowers() == with_record(
                    old(storage).borrowers(),
                    borrower@,
                    after,
                )
                &&& r matches Ok(resp)
                &&& resp.action == Action::UnlockCollateral
                &&& resp.amount == amount
                &&& resp.message is None
            }
        }),
{
    if !bytes_eq(sender, storage.config.overseer_contract.as_slice()) {
        return Err(ContractError::Unauthorized);
    }
    let mut borrower_info = read_borrower_info(storage, borrower);
    let borrowed_amt = borrower_info.balance.sub(&borrower_info.spendable);
    if borrowed_amt.lt(&amount) {
        return Err(ContractError::UnlockAmountExceedsLocked(borrowed_amt));
    }
    proof {
        lemma_value_bound(borrower_info.balance);
    }
    borrower_info.spendable = borrower_info.spendable.add(&amount);
    store_borrower_info(storage, borrower, &borrower_info);
    Ok(Response { action: Action::UnlockCollateral, amount, message: None })
}

/// Takes `amount` of the borrower's pledged collateral out of custody, on the
/// overseer's word, and sends it to the liquidation contract for the
/// liquidator's bid: the balance shrinks by it and the spendable part stays.
/// A record whose balance reaches zero is dropped.
pub fn liquidate_collateral(
    storage: &mut CustodyStorage,
    sender: &[u8],
    liquidator: &[u8],
    borrower: &[u8],
    amount: Amount,
) -> (r: Result<Response, ContractError>)
    requires
        old(storage).wf(),
    ensures
        final(storage).wf(),
        final(storage).config() == old(storage).config(),
        ({
            let before = old(storage).borrower_info(borrower@);
            let config = old(storage).config();
            if sender@ != config.overseer_contract@ {
                &&& r == Err::<Response, ContractError>(ContractError::Unauthorized)
                &&& *final(storage) == *old(storage)
            } else if amount.value() > before.locked() {
                &&& r matches Err(ContractError::LiquidationAmountExceedsLocked(available))
                &&& available.value() == before.locked()
                &&& *final(storage) == *old(storage)
            } else {
                let after = final(storage).borrower_info(borrower@);
                &&& after.balance.value() == before.balance.value() - amount.value()
                &&& after.spendable == before.spendable
                &&& if before.balance.value() == amount.value() {
                    &&& final(storage).borrowers() == old(storage).borrowers().remove(borrower@)
                    &&& !final(storage).borrowers().dom().contains(borrower@)
                    &&& after == BorrowerInfo::none()
                } else {
                    &&& final(storage).borrowers() == old(storage).borrowers().insert(
                        borrower@,
                        after,
                    )
                    &&& final(storage).borrowers().dom().contains(borrower@)
                }
                &&& r matches Ok(resp)
                &&& resp.action == Action::LiquidateCollateral
                &&& resp.amount == amount
                &&& resp.message matches Some(
                    TokenMessage::ExecuteBid {
                        token,
                        contract,
                        amount: sent,
                        liquidator: named,
                        fee_address,
                        repay_address,
                    },
                )
                &&& token@ == config.collateral_token@
                &&& contract@ == config.liquidation_contract@
                &&& sent == amount
                &&& named@ == liquidator@
                &&& fee_address matches Some(fee)
                &&& fee@ == config.overseer_contract@
                &&& repay_address matches Some(repay)
                &&& repay@ == config.market_contract@
            }
        }),
{
    if !bytes_eq(sender, storage.config.overseer_contract.as_slice()) {
        return Err(ContractError::Unauthorized);
    }
    let mut borrower_info = read_borrower_info(storage, borrower);
    let borrowed_amt = borrower_info.balance.sub(&borrower_info.spendable);
    if borrowed_amt.lt(&amount) {
        return Err(ContractError::LiquidationAmountExceedsLocked(borrowed_amt));
    }
    borrower_info.balance = borrower_info.balance.sub(&amount);
    store_borrower_info(storage, borrower, &borrower_info);
    let message = TokenMessage::ExecuteBid {
        token: slice_to_vec(storage.config.collateral_token.as_slice()),
        contract: slice_to_vec(storage.config.liquidation_contract.as_slice()),
        amount,
        liquidator: slice_to_vec(liquidator),
        fee_address: Some(slice_to_vec(storage.config.overseer_contract.as_slice())),
        repay_address: Some(slice_to_vec(storage.config.market_contract.as_slice())),
    };
    Ok(Response { action: Action::LiquidateCollateral, amount, message: Some(message) })
}

/// What the ledger holds for the borrower; zeros where it holds nothing.
pub fn query_borrower(storage: &CustodyStorage, borrower: &[u8]) -> (r: BorrowerResponse)
    requires
        storage.wf(),
    ensures
        r.borrower@ == borrower@,
        r.info() == storage.borrower_info(borrower@),
        r.spendable.value() <= r.balance.value(),
{
    let borrower_info = read_borrower_info(storage, borrower);
    BorrowerResponse {
        borrower: slice_to_vec(borrower),
        balance: borrower_info.balance,
        spendable: borrower_info.spendable,
    }
}

/// A page of the borrowers' records, in ascending order of the borrowers'
/// identity bytes, starting after the given borrower if one is given.
pub fn read_borrowers(
    storage: &CustodyStorage,
    start_after: Option<Vec<u8>>,
    limit: Option<u32>,
) -> (r: Vec<BorrowerResponse>)
    requires
        storage.wf(),
    ensures
        is_page(
            storage.borrowers(),
            range_start(start_after),
            page_limit(limit),
            r@,
        ),
        forall|i: int|
            0 <= i < r@.len() ==> (#[trigger] r@[i]).spendable.value() <= r@[i].balance.value(),
{
    let ghost first = range_start(start_after);
    let limit = clamp_limit(limit);
    let start = match calc_range_start(start_after) {
        Some(v) => v,
        None => Vec::new(),
    };
    assert(start@ =~= first);
    let ghost table = storage.borrowers();
    let namespace = prefix_borrower();
    let prefix = length_prefixed(namespace.as_slice());
    let scan = scan_prefixed(&storage.borrowers, prefix.as_slice(), start.as_slice(), limit);
    assert(table.dom() =~= keys_under(contents(storage.borrowers), borrower_prefix()));
    let mut out: Vec<BorrowerResponse> = Vec::new();
    let mut i: usize = 0;
    while i < scan.len()
        invariant
            storage.wf(),
            table == storage.borrowers(),
            prefix@ == borrower_prefix(),
            0 <= i <= scan@.len(),
            out@.len() == i,
            forall|j: int| 0 <= j < scan@.len() ==> {
                &&& contents(storage.borrowers).dom().contains(prefix@ + (#[trigger] scan@[j]).0@)
                &&& contents(storage.borrowers)[prefix@ + scan@[j].0@] == scan@[j].1@
            },
            forall|j: int| 0 <= j < i ==> {
                &&& (#[trigger] out@[j]).borrower@ == scan@[j].0@
                &&& out@[j].info() == BorrowerInfo::of_bytes(scan@[j].1@)
            },
        decreases scan@.len() - i,
    {
        assert(contents(storage.borrowers).dom().contains(stored_borrower_key(scan@[i as int].0@)));
        let info = BorrowerInfo::decode(scan[i].1.as_slice());
        out.push(
            BorrowerResponse {
                borrower: slice_to_vec(scan[i].0.as_slice()),
                balance: info.balance,
                spendable: info.spendable,
            },
        );
        i += 1;
    }
    proof {
        let page = out@;
        assert(page_keys(page) =~= entry_keys(scan@));
        assert forall|j: int| 0 <= j < page.len() implies table[(#[trigger] page[j]).borrower@]
            == page[j].info() && page[j].spendable.value() <= page[j].balance.value() by {
            assert(contents(storage.borrowers).dom().contains(stored_borrower_key(scan@[j].0@)));
            assert(page[j].info().wf());
        }
    }
    out
}

/// A page of the borrowers' records, as a query gives it.
pub fn query_borrowers(
    storage: &CustodyStorage,
    start_after: Option<Vec<u8>>,
    limit: Option<u32>,
) -> (r: BorrowersResponse)
    requires
        storage.wf(),
    ensures
        is_page(
            storage.borrowers(),
            range_start(start_after),
            page_limit(limit),
            r.borrowers@,
        ),
        forall|i: int| 0 <= i < r.borrowers@.len() ==> (#[trigger] r.borrowers@[i]).spendable.value()
            <= r.borrowers@[i].balance.value(),
{
    let borrowers = read_borrowers(storage, start_after, limit);
    BorrowersResponse { borrowers }
}

} // verus!

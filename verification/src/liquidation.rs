//! The liquidation bid book: one bid for each pair of a bidder and a
//! collateral token, found again by bidder and by collateral token.

use vstd::prelude::*;
use vstd::slice::slice_to_vec;
use vstd::slice::slice_subrange;
use cosmwasm_std::MemoryStorage;
use crate::amount::{Amount, Decimal256, lemma_bytes_round_trip};
use crate::store::{
    contents, store_new, prefixed_get, prefixed_set, prefixed_remove, nested_set, nested_remove,
    scan_prefixed, keys_under, entry_keys, lemma_append_cancel, is_key_page, page_limit,
    range_start, clamp_limit, calc_range_start, length_prefix, length_prefixed, join_bytes,
};

verus! {

/// The bid book's parameters. Identities are the bytes of addresses.
#[derive(Clone, Debug, PartialEq, Eq)]
pub struct Config {
    pub owner: Vec<u8>,
    pub oracle_contract: Vec<u8>,
    pub stable_denom: String,
    pub safe_ratio: Decimal256,
    pub bid_fee: Decimal256,
    pub max_premium_rate: Decimal256,
    pub liquidation_threshold: Amount,
    pub price_timeframe: u64,
}

/// A liquidator's standing offer for one collateral token.
#[derive(Clone, Copy, Debug, PartialEq, Eq, Structural)]
pub struct Bid {
    pub amount: Amount,
    pub premium_rate: Decimal256,
}

/// A bid with the pair it stands for, as a query gives it.
#[derive(Clone, Debug, PartialEq, Eq)]
pub struct BidResponse {
    pub collateral_token: Vec<u8>,
    pub bidder: Vec<u8>,
    pub amount: Amount,
    pub premium_rate: Decimal256,
}

/// Why a read of the bid book failed.
#[derive(Clone, Copy, Debug, PartialEq, Eq, Structural)]
pub enum StdError {
    /// No bids with the specified information exist.
    NotFound,
}

impl StdError {
    /// The error in words.
    pub fn message(&self) -> (r: &'static str)
        ensures
            r@ == "No bids with the specified information exist"@,
    {
        "No bids with the specified information exist"
    }
}

impl Bid {
    /// The sixty-four bytes kept for a bid.
    pub open spec fn bytes(self) -> Seq<u8> {
        self.amount.bytes() + self.premium_rate.atomics.bytes()
    }

    /// The bid that sixty-four bytes stand for.
    pub open spec fn of_bytes(s: Seq<u8>) -> Bid {
        Bid {
            amount: Amount::of_bytes(s.subrange(0, 32)),
            premium_rate: Decimal256 { atomics: Amount::of_bytes(s.subrange(32, 64)) },
        }
    }

    fn encode(&self) -> (r: Vec<u8>)
        ensures
            r@ == self.bytes(),
            r@.len() == 64,
    {
        let mut out: Vec<u8> = self.amount.to_bytes();
        let mut rest: Vec<u8> = self.premium_rate.atomics.to_bytes();
        out.append(&mut rest);
        out
    }

    fn decode(s: &[u8]) -> (r: Bid)
        requires
            s@.len() == 64,
        ensures
            r == Bid::of_bytes(s@),
    {
        let amount = Amount::from_bytes(slice_subrange(s, 0, 32));
        let atomics = Amount::from_bytes(slice_subrange(s, 32, 64));
        Bid { amount, premium_rate: Decimal256 { atomics } }
    }
}

impl BidResponse {
    /// The bid without the pair.
    pub open spec fn bid(&self) -> Bid {
        Bid { amount: self.amount, premium_rate: self.premium_rate }
    }
}

/// Reading back the bytes of a bid gives the bid.
pub proof fn lemma_bid_round_trip(bid: Bid)
    ensures
        bid.bytes().len() == 64,
        Bid::of_bytes(bid.bytes()) == bid,
{
    lemma_bytes_round_trip(bid.amount);
    lemma_bytes_round_trip(bid.premium_rate.atomics);
    assert(bid.bytes().subrange(0, 32) =~= bid.amount.bytes());
    assert(bid.bytes().subrange(32, 64) =~= bid.premium_rate.atomics.bytes());
}

/// The key of a bid: the bidder's bytes followed by the collateral token's.
pub open spec fn bid_key(bidder: Seq<u8>, collateral_token: Seq<u8>) -> Seq<u8> {
    bidder + collateral_token
}

/// The key of an index entry: the owner's bytes behind their length, then the
/// companion's bytes.
pub open spec fn index_key(owner: Seq<u8>, companion: Seq<u8>) -> Seq<u8> {
    length_prefix(owner) + companion
}

/// Two index entries with one key are one entry.
pub proof fn lemma_index_key_injective(a: Seq<u8>, b: Seq<u8>, c: Seq<u8>, d: Seq<u8>)
    requires
        a.len() <= 0xFFFF,
        c.len() <= 0xFFFF,
        index_key(a, b) == index_key(c, d),
    ensures
        a == c,
        b == d,
{
    let k = index_key(a, b);
    let l = index_key(c, d);
    assert(k[0] == (a.len() / 256) as u8 && k[1] == (a.len() % 256) as u8);
    assert(l[0] == (c.len() / 256) as u8 && l[1] == (c.len() % 256) as u8);
    assert(a.len() == c.len());
    assert(a =~= k.subrange(2, 2 + a.len() as int));
    assert(c =~= l.subrange(2, 2 + c.len() as int));
    assert(b =~= k.subrange(2 + a.len() as int, k.len() as int));
    assert(d =~= l.subrange(2 + c.len() as int, l.len() as int));
}

/// The namespace of the bids: the bytes of `bid`.
pub open spec fn bid_namespace() -> Seq<u8> {
    seq![98u8, 105u8, 100u8]
}

/// The namespace of the index by bidder: the bytes of `bid_by_user`.
pub open spec fn user_namespace() -> Seq<u8> {
    seq![98u8, 105u8, 100u8, 95u8, 98u8, 121u8, 95u8, 117u8, 115u8, 101u8, 114u8]
}

/// The namespace of the index by collateral token: the bytes of
/// `bid_by_collateral`.
pub open spec fn collateral_namespace() -> Seq<u8> {
    seq![
        98u8, 105u8, 100u8, 95u8, 98u8, 121u8, 95u8, 99u8, 111u8, 108u8, 108u8, 97u8, 116u8, 101u8,
        114u8, 97u8, 108u8,
    ]
}

/// The key under which the store holds the bid with the given key.
pub open spec fn stored_bid_key(key: Seq<u8>) -> Seq<u8> {
    length_prefix(bid_namespace()) + key
}

/// The key under which the store holds an entry of the index by bidder.
pub open spec fn stored_user_key(bidder: Seq<u8>, collateral_token: Seq<u8>) -> Seq<u8> {
    length_prefix(user_namespace()) + length_prefix(bidder) + collateral_token
}

/// The key under which the store holds an entry of the index by collateral
/// token.
pub open spec fn stored_collateral_key(bidder: Seq<u8>, collateral_token: Seq<u8>) -> Seq<u8> {
    length_prefix(collateral_namespace()) + length_prefix(collateral_token) + bidder
}

fn prefix_bid() -> (r: Vec<u8>)
    ensures
        r@ == bid_namespace(),
        r@.len() == 3,
{
    let r = vec![98u8, 105u8, 100u8];
    assert(r@ =~= bid_namespace());
    r
}

fn prefix_bid_by_user() -> (r: Vec<u8>)
    ensures
        r@ == user_namespace(),
        r@.len() == 11,
{
    let r = vec![98u8, 105u8, 100u8, 95u8, 98u8, 121u8, 95u8, 117u8, 115u8, 101u8, 114u8];
    assert(r@ =~= user_namespace());
    r
}

fn prefix_bid_by_collateral() -> (r: Vec<u8>)
    ensures
        r@ == collateral_namespace(),
        r@.len() == 17,
{
    let r = vec![
        98u8, 105u8, 100u8, 95u8, 98u8, 121u8, 95u8, 99u8, 111u8, 108u8, 108u8, 97u8, 116u8, 101u8,
        114u8, 97u8, 108u8,
    ];
    assert(r@ =~= collateral_namespace());
    r
}

/// Keys of the three namespaces differ, and each names one bid or one pair.
pub proof fn lemma_stored_keys(k: Seq<u8>, l: Seq<u8>, a: Seq<u8>, b: Seq<u8>, c: Seq<u8>, d: Seq<u8>)
    ensures
        stored_bid_key(k) != stored_user_key(a, b),
        stored_bid_key(k) != stored_collateral_key(a, b),
        stored_user_key(a, b) != stored_collateral_key(c, d),
        stored_bid_key(k) == stored_bid_key(l) ==> k == l,
        a.len() <= 0xFFFF && c.len() <= 0xFFFF && stored_user_key(a, b) == stored_user_key(c, d)
            ==> a == c && b == d,
        b.len() <= 0xFFFF && d.len() <= 0xFFFF && stored_collateral_key(a, b)
            == stored_collateral_key(c, d) ==> a == c && b == d,
{
    assert(bid_namespace().len() == 3);
    assert(user_namespace().len() == 11);
    assert(collateral_namespace().len() == 17);
    assert(stored_bid_key(k)[1] == 3u8);
    assert(stored_user_key(a, b)[1] == 11u8);
    assert(stored_user_key(c, d)[1] == 11u8);
    assert(stored_collateral_key(a, b)[1] == 17u8);
    assert(stored_collateral_key(c, d)[1] == 17u8);
    if stored_bid_key(k) == stored_bid_key(l) {
        lemma_append_cancel(length_prefix(bid_namespace()), k, l);
    }
    let u = length_prefix(user_namespace());
    assert(stored_user_key(a, b) =~= u + index_key(a, b));
    assert(stored_user_key(c, d) =~= u + index_key(c, d));
    if a.len() <= 0xFFFF && c.len() <= 0xFFFF && stored_user_key(a, b) == stored_user_key(c, d) {
        lemma_append_cancel(u, index_key(a, b), index_key(c, d));
        lemma_index_key_injective(a, b, c, d);
    }
    let v = length_prefix(collateral_namespace());
    assert(stored_collateral_key(a, b) =~= v + index_key(b, a));
    assert(stored_collateral_key(c, d) =~= v + index_key(d, c));
    if b.len() <= 0xFFFF && d.len() <= 0xFFFF && stored_collateral_key(a, b)
        == stored_collateral_key(c, d) {
        lemma_append_cancel(v, index_key(b, a), index_key(d, c));
        lemma_index_key_injective(b, a, d, c);
    }
}

/// The bid book's state: its parameters, and the store that holds the bids
/// and the two indices, each in its namespace.
pub struct LiquidationStorage {
    config: Config,
    store: MemoryStorage,
}

impl LiquidationStorage {
    /// The parameters.
    pub closed spec fn config(&self) -> Config {
        self.config
    }

    /// The bids kept, by their keys.
    pub closed spec fn bids(&self) -> Map<Seq<u8>, Bid> {
        Map::new(
            |k: Seq<u8>| contents(self.store).dom().contains(stored_bid_key(k)),
            |k: Seq<u8>| Bid::of_bytes(contents(self.store)[stored_bid_key(k)]),
        )
    }

    /// The bid kept for a pair, if there is one.
    pub open spec fn bid_at(&self, bidder: Seq<u8>, collateral_token: Seq<u8>) -> Option<Bid> {
        if self.bids().dom().contains(bid_key(bidder, collateral_token)) {
            Some(self.bids()[bid_key(bidder, collateral_token)])
        } else {
            None
        }
    }

    /// The pairs of a bidder and a collateral token in the index by bidder.
    pub closed spec fn user_index(&self) -> Set<(Seq<u8>, Seq<u8>)> {
        Set::new(
            |p: (Seq<u8>, Seq<u8>)|
                p.0.len() <= 0xFFFF && contents(self.store).dom().contains(
                    stored_user_key(p.0, p.1),
                ),
        )
    }

    /// The pairs of a bidder and a collateral token in the index by
    /// collateral token.
    pub closed spec fn collateral_index(&self) -> Set<(Seq<u8>, Seq<u8>)> {
        Set::new(
            |p: (Seq<u8>, Seq<u8>)|
                p.1.len() <= 0xFFFF && contents(self.store).dom().contains(
                    stored_collateral_key(p.0, p.1),
                ),
        )
    }

    /// Every bid kept is whole.
    pub closed spec fn wf(&self) -> bool {
        forall|k: Seq<u8>| #[trigger]
            contents(self.store).dom().contains(stored_bid_key(k)) ==> contents(
                self.store,
            )[stored_bid_key(k)].len() == 64
    }

    /// The bids and the two indices agree: the indices hold the same pairs,
    /// every pair in them has a bid, and every bid has a pair in them.
    pub open spec fn consistent(&self) -> bool {
        &&& self.user_index() == self.collateral_index()
        &&& forall|b: Seq<u8>, c: Seq<u8>|
            (#[trigger] self.user_index().contains((b, c))) ==> self.bids().dom().contains(
                bid_key(b, c),
            )
        &&& forall|k: Seq<u8>|
            (#[trigger] self.bids().dom().contains(k)) ==> exists|b: Seq<u8>, c: Seq<u8>|
                (#[trigger] self.user_index().contains((b, c))) && bid_key(b, c) == k
    }

    /// No other pair in the indices has the key of the given pair's bid.
    pub open spec fn unambiguous(&self, bidder: Seq<u8>, collateral_token: Seq<u8>) -> bool {
        forall|b: Seq<u8>, c: Seq<u8>|
            (#[trigger] self.user_index().contains((b, c))) && bid_key(b, c) == bid_key(
                bidder,
                collateral_token,
            ) ==> b == bidder && c == collateral_token
    }

    /// A bid book with the given parameters and no bid.
    pub fn new(config: Config) -> (r: LiquidationStorage)
        ensures
            r.wf(),
            r.consistent(),
            r.config() == config,
            r.bids() == Map::<Seq<u8>, Bid>::empty(),
            r.user_index() == Set::<(Seq<u8>, Seq<u8>)>::empty(),
            r.collateral_index() == Set::<(Seq<u8>, Seq<u8>)>::empty(),
    {
        let r = LiquidationStorage { config, store: store_new() };
        assert(r.bids() =~= Map::<Seq<u8>, Bid>::empty());
        assert(r.user_index() =~= Set::<(Seq<u8>, Seq<u8>)>::empty());
        assert(r.collateral_index() =~= Set::<(Seq<u8>, Seq<u8>)>::empty());
        r
    }
}

/// Replaces the parameters.
pub fn store_config(storage: &mut LiquidationStorage, config: Config)
    ensures
        final(storage).config() == config,
        final(storage).bids() == old(storage).bids(),
        final(storage).user_index() == old(storage).user_index(),
        final(storage).collateral_index() == old(storage).collateral_index(),
        old(storage).wf() ==> final(storage).wf(),
{
    storage.config = config;
}

/// The parameters.
pub fn read_config(storage: &LiquidationStorage) -> (r: &Config)
    ensures
        *r == storage.config(),
{
    &storage.config
}

/// The value kept under an index entry.
fn index_mark() -> (r: Vec<u8>)
    ensures
        r@.len() == 4,
{
    vec![116u8, 114u8, 117u8, 101u8]
}

/// Keeps the bid for the pair, in place of any earlier one, and enters the
/// pair in both indices.
pub fn store_bid(
    storage: &mut LiquidationStorage,
    bidder: &[u8],
    collateral_token: &[u8],
    bid: Bid,
)
    requires
        old(storage).wf(),
        bidder@.len() <= 0xFFFF,
        collateral_token@.len() <= 0xFFFF,
    ensures
        final(storage).wf(),
        final(storage).config() == old(storage).config(),
        final(storage).bids() == old(storage).bids().insert(bid_key(bidder@, collateral_token@), bid),
        final(storage).user_index() == old(storage).user_index().insert(
            (bidder@, collateral_token@),
        ),
        final(storage).collateral_index() == old(storage).collateral_index().insert(
            (bidder@, collateral_token@),
        ),
        stored(*old(storage), *final(storage), bidder@, collateral_token@, bid),
        final(storage).bid_at(bidder@, collateral_token@) == Some(bid),
        old(storage).consistent() ==> final(storage).consistent(),
{
    let key = join_bytes(bidder, collateral_token);
    let bytes = bid.encode();
    proof {
        lemma_bid_round_trip(bid);
    }
    prefixed_set(&mut storage.store, prefix_bid().as_slice(), key.as_slice(), bytes.as_slice());
    let mark = index_mark();
    nested_set(
        &mut storage.store,
        prefix_bid_by_user().as_slice(),
        bidder,
        collateral_token,
        mark.as_slice(),
    );
    nested_set(
        &mut storage.store,
        prefix_bid_by_collateral().as_slice(),
        collateral_token,
        bidder,
        mark.as_slice(),
    );
    proof {
        let pair = (bidder@, collateral_token@);
        let own = bid_key(bidder@, collateral_token@);
        assert forall|k: Seq<u8>| #[trigger] stored_bid_key(k) == stored_bid_key(own) implies k
            == own by {
            lemma_stored_keys(k, own, pair.0, pair.1, pair.0, pair.1);
        }
        assert forall|k: Seq<u8>|
            (#[trigger] stored_bid_key(k)) != stored_user_key(pair.0, pair.1) && stored_bid_key(k)
                != stored_collateral_key(pair.0, pair.1) by {
            lemma_stored_keys(k, own, pair.0, pair.1, pair.0, pair.1);
        }
        assert forall|p: (Seq<u8>, Seq<u8>)|
            {
                &&& (#[trigger] stored_user_key(p.0, p.1)) != stored_bid_key(own)
                &&& stored_user_key(p.0, p.1) != stored_collateral_key(pair.0, pair.1)
                &&& (p.0.len() <= 0xFFFF && stored_user_key(p.0, p.1) == stored_user_key(
                    pair.0,
                    pair.1,
                ) ==> p == pair)
            } by {
            lemma_stored_keys(own, own, p.0, p.1, pair.0, pair.1);
        }
        assert forall|p: (Seq<u8>, Seq<u8>)|
            {
                &&& (#[trigger] stored_collateral_key(p.0, p.1)) != stored_bid_key(own)
                &&& stored_collateral_key(p.0, p.1) != stored_user_key(pair.0, pair.1)
                &&& (p.1.len() <= 0xFFFF && stored_collateral_key(p.0, p.1)
                    == stored_collateral_key(pair.0, pair.1) ==> p == pair)
            } by {
            lemma_stored_keys(own, own, p.0, p.1, pair.0, pair.1);
            lemma_stored_keys(own, own, pair.0, pair.1, p.0, p.1);
        }
        assert(final(storage).bids() =~= old(storage).bids().insert(own, bid));
        assert(final(storage).user_index() =~= old(storage).user_index().insert(pair));
        assert(final(storage).collateral_index() =~= old(storage).collateral_index().insert(pair));
        if old(storage).consistent() {
            lemma_store_keeps_consistent(
                *old(storage),
                *final(storage),
                bidder@,
                collateral_token@,
                bid,
            );
        }
    }
}

/// Whether `post` is `pre` after the bid for the pair was kept.
pub open spec fn stored(
    pre: LiquidationStorage,
    post: LiquidationStorage,
    bidder: Seq<u8>,
    collateral_token: Seq<u8>,
    bid: Bid,
) -> bool {
    &&& post.config() == pre.config()
    &&& post.bids() == pre.bids().insert(bid_key(bidder, collateral_token), bid)
    &&& post.user_index() == pre.user_index().insert((bidder, collateral_token))
    &&& post.collateral_index() == pre.collateral_index().insert((bidder, collateral_token))
}

/// Whether `post` is `pre` after the bid for the pair was dropped.
pub open spec fn removed(
    pre: LiquidationStorage,
    post: LiquidationStorage,
    bidder: Seq<u8>,
    collateral_token: Seq<u8>,
) -> bool {
    &&& post.config() == pre.config()
    &&& post.bids() == pre.bids().remove(bid_key(bidder, collateral_token))
    &&& post.user_index() == pre.user_index().remove((bidder, collateral_token))
    &&& post.collateral_index() == pre.collateral_index().remove((bidder, collateral_token))
}

/// Keeping a bid leaves the bids and the indices in agreement.
pub proof fn lemma_store_keeps_consistent(
    pre: LiquidationStorage,
    post: LiquidationStorage,
    bidder: Seq<u8>,
    collateral_token: Seq<u8>,
    bid: Bid,
)
    requires
        pre.consistent(),
        stored(pre, post, bidder, collateral_token, bid),
    ensures
        post.consistent(),
{
    assert forall|k: Seq<u8>| #[trigger] post.bids().dom().contains(k) implies exists|
        b: Seq<u8>,
        c: Seq<u8>,
    |
        (#[trigger] post.user_index().contains((b, c))) && bid_key(b, c) == k by {
        if k == bid_key(bidder, collateral_token) {
            assert(post.user_index().contains((bidder, collateral_token)));
        } else {
            assert(pre.bids().dom().contains(k));
            let (b, c) = choose|b: Seq<u8>, c: Seq<u8>|
                (#[trigger] pre.user_index().contains((b, c))) && bid_key(b, c) == k;
            assert(post.user_index().contains((b, c)));
        }
    }
    assert forall|b: Seq<u8>, c: Seq<u8>|
        (#[trigger] post.user_index().contains((b, c))) implies post.bids().dom().contains(
        bid_key(b, c),
    ) by {
        if (b, c) != (bidder, collateral_token) {
            assert(pre.user_index().contains((b, c)));
        }
    }
}

/// Dropping the bid of a pair that shares its key with no other pair leaves
/// the bids and the indices in agreement.
pub proof fn lemma_remove_keeps_consistent(
    pre: LiquidationStorage,
    post: LiquidationStorage,
    bidder: Seq<u8>,
    collateral_token: Seq<u8>,
)
    requires
        pre.consistent(),
        pre.unambiguous(bidder, collateral_token),
        removed(pre, post, bidder, collateral_token),
    ensures
        post.consistent(),
{
    assert forall|k: Seq<u8>| #[trigger] post.bids().dom().contains(k) implies exists|
        b: Seq<u8>,
        c: Seq<u8>,
    |
        (#[trigger] post.user_index().contains((b, c))) && bid_key(b, c) == k by {
        assert(pre.bids().dom().contains(k));
        let (b, c) = choose|b: Seq<u8>, c: Seq<u8>|
            (#[trigger] pre.user_index().contains((b, c))) && bid_key(b, c) == k;
        assert(post.user_index().contains((b, c)));
    }
    assert forall|b: Seq<u8>, c: Seq<u8>|
        (#[trigger] post.user_index().contains((b, c))) implies post.bids().dom().contains(
        bid_key(b, c),
    ) by {
        assert(pre.user_index().contains((b, c)));
    }
}

/// Dropping a bid a second time changes nothing: the parameters, the bids and
/// both indices are as after the first time. `remove_bid` gives `removed` for
/// every pair whose identities the key format can hold.
pub proof fn lemma_remove_twice(
    pre: LiquidationStorage,
    once: LiquidationStorage,
    twice: LiquidationStorage,
    bidder: Seq<u8>,
    collateral_token: Seq<u8>,
)
    requires
        removed(pre, once, bidder, collateral_token),
        removed(once, twice, bidder, collateral_token),
    ensures
        twice.config() == once.config(),
        twice.bids() == once.bids(),
        twice.user_index() == once.user_index(),
        twice.collateral_index() == once.collateral_index(),
{
    assert(twice.bids() =~= once.bids());
    assert(twice.user_index() =~= once.user_index());
    assert(twice.collateral_index() =~= once.collateral_index());
}

/// A bid that was kept is the bid that is read for its pair, with the amount
/// and the premium rate as they were given. `store_bid` gives `stored` for
/// every pair whose identities the key format can hold.
pub proof fn lemma_read_after_store(
    pre: LiquidationStorage,
    post: LiquidationStorage,
    bidder: Seq<u8>,
    collateral_token: Seq<u8>,
    bid: Bid,
)
    requires
        stored(pre, post, bidder, collateral_token, bid),
    ensures
        post.bid_at(bidder, collateral_token) == Some(bid),
{
}

/// Drops the bid for the pair and the pair's entries in both indices. Where
/// there is no such bid, nothing changes.
pub fn remove_bid(storage: &mut LiquidationStorage, bidder: &[u8], collateral_token: &[u8])
    requires
        old(storage).wf(),
        bidder@.len() <= 0xFFFF,
        collateral_token@.len() <= 0xFFFF,
    ensures
        final(storage).wf(),
        final(storage).config() == old(storage).config(),
        removed(*old(storage), *final(storage), bidder@, collateral_token@),
        old(storage).consistent() && old(storage).unambiguous(bidder@, collateral_token@)
            ==> final(storage).consistent(),
{
    let key = join_bytes(bidder, collateral_token);
    prefixed_remove(&mut storage.store, prefix_bid().as_slice(), key.as_slice());
    nested_remove(&mut storage.store, prefix_bid_by_user().as_slice(), bidder, collateral_token);
    nested_remove(
        &mut storage.store,
        prefix_bid_by_collateral().as_slice(),
        collateral_token,
        bidder,
    );
    proof {
        let pair = (bidder@, collateral_token@);
        let own = bid_key(bidder@, collateral_token@);
        assert forall|k: Seq<u8>| #[trigger] stored_bid_key(k) == stored_bid_key(own) implies k
            == own by {
            lemma_stored_keys(k, own, pair.0, pair.1, pair.0, pair.1);
        }
        assert forall|k: Seq<u8>|
            (#[trigger] stored_bid_key(k)) != stored_user_key(pair.0, pair.1) && stored_bid_key(k)
                != stored_collateral_key(pair.0, pair.1) by {
            lemma_stored_keys(k, own, pair.0, pair.1, pair.0, pair.1);
        }
        assert forall|p: (Seq<u8>, Seq<u8>)|
            {
                &&& (#[trigger] stored_user_key(p.0, p.1)) != stored_bid_key(own)
                &&& stored_user_key(p.0, p.1) != stored_collateral_key(pair.0, pair.1)
                &&& (p.0.len() <= 0xFFFF && stored_user_key(p.0, p.1) == stored_user_key(
                    pair.0,
                    pair.1,
                ) ==> p == pair)
            } by {
            lemma_stored_keys(own, own, p.0, p.1, pair.0, pair.1);
        }
        assert forall|p: (Seq<u8>, Seq<u8>)|
            {
                &&& (#[trigger] stored_collateral_key(p.0, p.1)) != stored_bid_key(own)
                &&& stored_collateral_key(p.0, p.1) != stored_user_key(pair.0, pair.1)
                &&& (p.1.len() <= 0xFFFF && stored_collateral_key(p.0, p.1)
                    == stored_collateral_key(pair.0, pair.1) ==> p == pair)
            } by {
            lemma_stored_keys(own, own, p.0, p.1, pair.0, pair.1);
            lemma_stored_keys(own, own, pair.0, pair.1, p.0, p.1);
        }
        assert(final(storage).bids() =~= old(storage).bids().remove(own));
        assert(final(storage).user_index() =~= old(storage).user_index().remove(pair));
        assert(final(storage).collateral_index() =~= old(storage).collateral_index().remove(pair));
        if old(storage).consistent() && old(storage).unambiguous(bidder@, collateral_token@) {
            lemma_remove_keeps_consistent(
                *old(storage),
                *final(storage),
                bidder@,
                collateral_token@,
            );
        }
    }
}

/// The bid kept for the pair, or `NotFound`.
pub fn read_bid(
    storage: &LiquidationStorage,
    bidder: &[u8],
    collateral_token: &[u8],
) -> (r: Result<Bid, StdError>)
    requires
        storage.wf(),
    ensures
        r == match storage.bid_at(bidder@, collateral_token@) {
            Some(bid) => Ok::<Bid, StdError>(bid),
            None => Err::<Bid, StdError>(StdError::NotFound),
        },
{
    let key = join_bytes(bidder, collateral_token);
    match prefixed_get(&storage.store, prefix_bid().as_slice(), key.as_slice()) {
        Some(v) => Ok(Bid::decode(v.as_slice())),
        None => Err(StdError::NotFound),
    }
}


impl LiquidationStorage {
    /// The bidders that the index by collateral token holds for a token.
    pub open spec fn bidders_of(&self, collateral_token: Seq<u8>) -> Set<Seq<u8>> {
        Set::new(|b: Seq<u8>| self.collateral_index().contains((b, collateral_token)))
    }

    /// The collateral tokens that the index by bidder holds for a bidder.
    pub open spec fn collaterals_of(&self, bidder: Seq<u8>) -> Set<Seq<u8>> {
        Set::new(|c: Seq<u8>| self.user_index().contains((bidder, c)))
    }
}

/// A page of the bids for a collateral token, in ascending order of the
/// bidders' identity bytes, starting after the given bidder if one is given:
/// the bids of the bidders on the page of the index by collateral token. An
/// entry on that page without a bid fails the whole read.
pub fn read_bids_by_collateral(
    storage: &LiquidationStorage,
    collateral_token: &[u8],
    start_after: Option<Vec<u8>>,
    limit: Option<u32>,
) -> (r: Result<Vec<BidResponse>, StdError>)
    requires
        storage.wf(),
        collateral_token@.len() <= 0xFFFF,
    ensures
        exists|keys: Seq<Seq<u8>>|
            (#[trigger] is_key_page(
                storage.bidders_of(collateral_token@),
                range_start(start_after),
                page_limit(limit),
                keys,
            )) && match r {
                Ok(page) => {
                    &&& page@.len() == keys.len()
                    &&& forall|i: int| 0 <= i < keys.len() ==> {
                        &&& (#[trigger] page@[i]).bidder@ == keys[i]
                        &&& page@[i].collateral_token@ == collateral_token@
                        &&& storage.bid_at(keys[i], collateral_token@) == Some(page@[i].bid())
                    }
                },
                Err(e) => {
                    &&& e == StdError::NotFound
                    &&& exists|i: int|
                        0 <= i < keys.len() && storage.bid_at(
                            (#[trigger] keys[i]),
                            collateral_token@,
                        ) is None
                },
            },
        storage.consistent() ==> r is Ok,
{
    let ghost first = range_start(start_after);
    let ghost index = storage.bidders_of(collateral_token@);
    let count = clamp_limit(limit);
    let start = match calc_range_start(start_after) {
        Some(v) => v,
        None => Vec::new(),
    };
    assert(start@ =~= first);
    let prefix = join_bytes(
        length_prefixed(prefix_bid_by_collateral().as_slice()).as_slice(),
        length_prefixed(collateral_token).as_slice(),
    );
    let entries = scan_prefixed(&storage.store, prefix.as_slice(), start.as_slice(), count);
    let ghost keys = entry_keys(entries@);
    assert(index =~= keys_under(contents(storage.store), prefix@));
    let mut out: Vec<BidResponse> = Vec::new();
    let mut i: usize = 0;
    while i < entries.len()
        invariant
            storage.wf(),
            first == range_start(start_after),
            count == page_limit(limit),
            index == storage.bidders_of(collateral_token@),
            is_key_page(index, first, count as nat, keys),
            keys.len() == entries@.len(),
            forall|j: int| 0 <= j < keys.len() ==> #[trigger] keys[j] == entries@[j].0@,
            0 <= i <= entries@.len(),
            out@.len() == i,
            forall|j: int| 0 <= j < i ==> {
                &&& (#[trigger] out@[j]).bidder@ == keys[j]
                &&& out@[j].collateral_token@ == collateral_token@
                &&& storage.bid_at(keys[j], collateral_token@) == Some(out@[j].bid())
            },
        decreases entries@.len() - i,
    {
        let key = &entries[i].0;
        assert(key@ == keys[i as int]);
        assert(index.contains(keys[i as int]));
        let bid = match read_bid(storage, key.as_slice(), collateral_token) {
            Ok(bid) => bid,
            Err(e) => {
                assert(storage.bid_at(keys[i as int], collateral_token@) is None);
                return Err(e);
            },
        };
        out.push(
            BidResponse {
                collateral_token: slice_to_vec(collateral_token),
                bidder: slice_to_vec(key.as_slice()),
                amount: bid.amount,
                premium_rate: bid.premium_rate,
            },
        );
        i += 1;
    }
    Ok(out)
}

/// A page of the bids of a bidder, in ascending order of the collateral
/// tokens' identity bytes, starting after the given token if one is given:
/// the bids for the tokens on the page of the index by bidder. An entry on
/// that page without a bid fails the whole read.
pub fn read_bids_by_user(
    storage: &LiquidationStorage,
    bidder: &[u8],
    start_after: Option<Vec<u8>>,
    limit: Option<u32>,
) -> (r: Result<Vec<BidResponse>, StdError>)
    requires
        storage.wf(),
        bidder@.len() <= 0xFFFF,
    ensures
        exists|keys: Seq<Seq<u8>>|
            (#[trigger] is_key_page(
                storage.collaterals_of(bidder@),
                range_start(start_after),
                page_limit(limit),
                keys,
            )) && match r {
                Ok(page) => {
                    &&& page@.len() == keys.len()
                    &&& forall|i: int| 0 <= i < keys.len() ==> {
                        &&& (#[trigger] page@[i]).collateral_token@ == keys[i]
                        &&& page@[i].bidder@ == bidder@
                        &&& storage.bid_at(bidder@, keys[i]) == Some(page@[i].bid())
                    }
                },
                Err(e) => {
                    &&& e == StdError::NotFound
                    &&& exists|i: int|
                        0 <= i < keys.len() && storage.bid_at(
                            bidder@,
                            (#[trigger] keys[i]),
                        ) is None
                },
            },
        storage.consistent() ==> r is Ok,
{
    let ghost first = range_start(start_after);
    let ghost index = storage.collaterals_of(bidder@);
    let count = clamp_limit(limit);
    let start = match calc_range_start(start_after) {
        Some(v) => v,
        None => Vec::new(),
    };
    assert(start@ =~= first);
    let prefix = join_bytes(
        length_prefixed(prefix_bid_by_user().as_slice()).as_slice(),
        length_prefixed(bidder).as_slice(),
    );
    let entries = scan_prefixed(&storage.store, prefix.as_slice(), start.as_slice(), count);
    let ghost keys = entry_keys(entries@);
    assert(index =~= keys_under(contents(storage.store), prefix@));
    let mut out: Vec<BidResponse> = Vec::new();
    let mut i: usize = 0;
    while i < entries.len()
        invariant
            storage.wf(),
            first == range_start(start_after),
            count == page_limit(limit),
            index == storage.collaterals_of(bidder@),
            is_key_page(index, first, count as nat, keys),
            keys.len() == entries@.len(),
            forall|j: int| 0 <= j < keys.len() ==> #[trigger] keys[j] == entries@[j].0@,
            0 <= i <= entries@.len(),
            out@.len() == i,
            forall|j: int| 0 <= j < i ==> {
                &&& (#[trigger] out@[j]).collateral_token@ == keys[j]
                &&& out@[j].bidder@ == bidder@
                &&& storage.bid_at(bidder@, keys[j]) == Some(out@[j].bid())
            },
        decreases entries@.len() - i,
    {
        let key = &entries[i].0;
        assert(key@ == keys[i as int]);
        assert(index.contains(keys[i as int]));
        let bid = match read_bid(storage, bidder, key.as_slice()) {
            Ok(bid) => bid,
            Err(e) => {
                assert(storage.bid_at(bidder@, keys[i as int]) is None);
                return Err(e);
            },
        };
        out.push(
            BidResponse {
                collateral_token: slice_to_vec(key.as_slice()),
                bidder: slice_to_vec(bidder),
                amount: bid.amount,
                premium_rate: bid.premium_rate,
            },
        );
        i += 1;
    }
    Ok(out)
}

} // verus!

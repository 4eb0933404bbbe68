use lending_core::amount::{Amount, Decimal256};
use lending_core::liquidation::{
    read_bid, read_bids_by_collateral, read_bids_by_user, read_config, remove_bid, store_bid,
    store_config, Bid, BidResponse, Config, LiquidationStorage, StdError,
};

fn config() -> Config {
    Config {
        owner: b"owner".to_vec(),
        oracle_contract: b"oracle".to_vec(),
        stable_denom: String::from("uusd"),
        safe_ratio: rate(800_000_000_000_000_000),
        bid_fee: rate(10_000_000_000_000_000),
        max_premium_rate: rate(300_000_000_000_000_000),
        liquidation_threshold: Amount::from_u128(200_000_000),
        price_timeframe: 60,
    }
}

fn rate(atomics: u128) -> Decimal256 {
    Decimal256 { atomics: Amount::from_u128(atomics) }
}

fn bid(amount: u128, premium: u128) -> Bid {
    Bid { amount: Amount::from_u128(amount), premium_rate: rate(premium) }
}

fn name(prefix: &str, i: u32) -> Vec<u8> {
    format!("{}{:04}", prefix, i).into_bytes()
}

fn response(bidder: &[u8], collateral: &[u8], b: Bid) -> BidResponse {
    BidResponse {
        collateral_token: collateral.to_vec(),
        bidder: bidder.to_vec(),
        amount: b.amount,
        premium_rate: b.premium_rate,
    }
}

#[test]
fn a_stored_bid_is_read_back() {
    let mut s = LiquidationStorage::new(config());
    store_bid(&mut s, b"bidder", b"token", bid(1000, 5));
    assert_eq!(read_bid(&s, b"bidder", b"token"), Ok(bid(1000, 5)));
    store_bid(&mut s, b"bidder", b"token", bid(7, 9));
    assert_eq!(read_bid(&s, b"bidder", b"token"), Ok(bid(7, 9)));
    assert_eq!(read_bids_by_user(&s, b"bidder", None, None).unwrap().len(), 1);
    assert_eq!(read_bids_by_collateral(&s, b"token", None, None).unwrap().len(), 1);
}

#[test]
fn a_missing_bid_is_not_found() {
    let s = LiquidationStorage::new(config());
    assert_eq!(read_bid(&s, b"bidder", b"token"), Err(StdError::NotFound));
    assert_eq!(StdError::NotFound.message(), "No bids with the specified information exist");
}

#[test]
fn removing_twice_is_removing_once() {
    let mut s = LiquidationStorage::new(config());
    store_bid(&mut s, b"b1", b"c1", bid(1, 1));
    store_bid(&mut s, b"b2", b"c1", bid(2, 2));
    remove_bid(&mut s, b"b1", b"c1");
    let once_by_collateral = read_bids_by_collateral(&s, b"c1", None, None);
    let once_by_user = read_bids_by_user(&s, b"b1", None, None);
    remove_bid(&mut s, b"b1", b"c1");
    assert_eq!(read_bids_by_collateral(&s, b"c1", None, None), once_by_collateral);
    assert_eq!(read_bids_by_user(&s, b"b1", None, None), once_by_user);
    assert_eq!(once_by_collateral, Ok(vec![response(b"b2", b"c1", bid(2, 2))]));
    assert_eq!(once_by_user, Ok(vec![]));
    assert_eq!(read_bid(&s, b"b1", b"c1"), Err(StdError::NotFound));
    assert_eq!(read_bid(&s, b"b2", b"c1"), Ok(bid(2, 2)));
}

#[test]
fn removing_what_is_not_there_changes_nothing() {
    let mut s = LiquidationStorage::new(config());
    store_bid(&mut s, b"b1", b"c1", bid(1, 1));
    remove_bid(&mut s, b"b1", b"c2");
    remove_bid(&mut s, b"b9", b"c1");
    assert_eq!(read_bid(&s, b"b1", b"c1"), Ok(bid(1, 1)));
    assert_eq!(
        read_bids_by_user(&s, b"b1", None, None),
        Ok(vec![response(b"b1", b"c1", bid(1, 1))])
    );
}

#[test]
fn bids_and_indices_move_together() {
    let mut s = LiquidationStorage::new(config());
    for round in 0..3u32 {
        for i in 0..6u32 {
            for j in 0..4u32 {
                if (i + 2 * j + round) % 3 == 0 {
                    store_bid(&mut s, &name("b", i), &name("c", j), bid(u128::from(i * 10 + j), 1));
                } else if (i + j + round) % 4 == 0 {
                    remove_bid(&mut s, &name("b", i), &name("c", j));
                }
            }
        }
        for i in 0..6u32 {
            let by_user = read_bids_by_user(&s, &name("b", i), None, Some(30)).unwrap();
            for j in 0..4u32 {
                let by_collateral =
                    read_bids_by_collateral(&s, &name("c", j), None, Some(30)).unwrap();
                let has_bid = read_bid(&s, &name("b", i), &name("c", j)).is_ok();
                let in_user = by_user.iter().any(|r| r.collateral_token == name("c", j));
                let in_collateral = by_collateral.iter().any(|r| r.bidder == name("b", i));
                assert_eq!(has_bid, in_user);
                assert_eq!(has_bid, in_collateral);
            }
        }
    }
}

#[test]
fn index_entries_belong_to_one_owner() {
    let mut s = LiquidationStorage::new(config());
    store_bid(&mut s, b"ab", b"c", bid(1, 1));
    assert_eq!(read_bids_by_user(&s, b"a", None, None), Ok(vec![]));
    assert_eq!(read_bids_by_collateral(&s, b"", None, None), Ok(vec![]));
    assert_eq!(
        read_bids_by_user(&s, b"ab", None, None),
        Ok(vec![response(b"ab", b"c", bid(1, 1))])
    );
    assert_eq!(
        read_bids_by_collateral(&s, b"c", None, None),
        Ok(vec![response(b"ab", b"c", bid(1, 1))])
    );
}

#[test]
fn an_index_entry_without_a_bid_fails_the_list() {
    let mut s = LiquidationStorage::new(config());
    // two pairs with one key: dropping one bid drops the other's too
    store_bid(&mut s, b"ab", b"c", bid(1, 1));
    store_bid(&mut s, b"a", b"bc", bid(2, 2));
    assert_eq!(read_bid(&s, b"ab", b"c"), Ok(bid(2, 2)));
    remove_bid(&mut s, b"ab", b"c");
    assert_eq!(read_bids_by_user(&s, b"a", None, None), Err(StdError::NotFound));
    assert_eq!(read_bids_by_collateral(&s, b"bc", None, None), Err(StdError::NotFound));
    assert_eq!(read_bids_by_user(&s, b"ab", None, None), Ok(vec![]));
}

#[test]
fn pages_of_bids_by_collateral() {
    let mut s = LiquidationStorage::new(config());
    for i in (0..35u32).rev() {
        store_bid(&mut s, &name("bidder", i), b"token", bid(u128::from(i), 3));
    }
    store_bid(&mut s, &name("bidder", 3), b"other", bid(77, 3));
    let page = read_bids_by_collateral(&s, b"token", None, None).unwrap();
    assert_eq!(page.len(), 10);
    for (i, r) in page.iter().enumerate() {
        assert_eq!(*r, response(&name("bidder", i as u32), b"token", bid(i as u128, 3)));
    }
    let page = read_bids_by_collateral(&s, b"token", None, Some(100)).unwrap();
    assert_eq!(page.len(), 30);
    let page = read_bids_by_collateral(&s, b"token", Some(name("bidder", 9)), None).unwrap();
    assert_eq!(page.len(), 10);
    assert_eq!(page[0].bidder, name("bidder", 10));
    let page = read_bids_by_collateral(&s, b"token", Some(name("bidder", 31)), None).unwrap();
    assert_eq!(page.len(), 3);
    assert_eq!(page[2].bidder, name("bidder", 34));
    let page = read_bids_by_collateral(&s, b"other", None, None).unwrap();
    assert_eq!(page, vec![response(&name("bidder", 3), b"other", bid(77, 3))]);
}

#[test]
fn pages_of_bids_by_user() {
    let mut s = LiquidationStorage::new(config());
    for j in 0..12u32 {
        store_bid(&mut s, b"bidder", &name("token", j), bid(u128::from(j), 4));
    }
    store_bid(&mut s, b"bidder2", &name("token", 0), bid(5, 5));
    let page = read_bids_by_user(&s, b"bidder", None, None).unwrap();
    assert_eq!(page.len(), 10);
    assert_eq!(page[0], response(b"bidder", &name("token", 0), bid(0, 4)));
    let page = read_bids_by_user(&s, b"bidder", Some(name("token", 9)), Some(5)).unwrap();
    assert_eq!(page.len(), 2);
    assert_eq!(page[0].collateral_token, name("token", 10));
    assert_eq!(page[1].collateral_token, name("token", 11));
    let page = read_bids_by_user(&s, b"bidder2", None, None).unwrap();
    assert_eq!(page, vec![response(b"bidder2", &name("token", 0), bid(5, 5))]);
}

#[test]
fn bid_book_config_is_replaced() {
    let mut s = LiquidationStorage::new(config());
    assert_eq!(read_config(&s), &config());
    let mut c = config();
    c.price_timeframe = 120;
    store_config(&mut s, c.clone());
    assert_eq!(read_config(&s), &c);
}

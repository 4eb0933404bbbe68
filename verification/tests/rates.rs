use lending_core::amount::{Amount, Decimal256, DECIMAL_FRACTIONAL};
use lending_core::distribution_model::{
    checked_ap_emission_rate, execute, instantiate, query, query_ap_emission_rate, query_config,
    update_config, Config,
    ContractError, ExecuteMsg, InstantiateMsg, QueryMsg, QueryResponse,
};
use lending_core::interest_model::{InterestStorage, StdError};

fn dec(atomics: u128) -> Decimal256 {
    Decimal256 { atomics: Amount::from_u128(atomics) }
}

const E16: u128 = 10_000_000_000_000_000;

fn config() -> Config {
    instantiate(InstantiateMsg {
        owner: b"owner".to_vec(),
        emission_cap: dec(200 * E16),
        emission_floor: dec(50 * E16),
        increment_multiplier: dec(150 * E16),
        decrement_multiplier: dec(90 * E16),
    })
}

fn rate(c: &Config, deposit: u128, current: u128) -> Decimal256 {
    // target 10 %, threshold 6 %: the triggers are 7 % and 9 %
    query_ap_emission_rate(c, dec(deposit), dec(10 * E16), dec(6 * E16), dec(current)).emission_rate
}

#[test]
fn decimal_one_and_order() {
    assert_eq!(Decimal256::one(), dec(DECIMAL_FRACTIONAL));
    assert!(dec(1).lt(&dec(2)));
    assert!(!dec(2).lt(&dec(2)));
    assert_eq!(dec(3).add(&dec(4)), dec(7));
}

#[test]
fn decimal_products_and_quotients() {
    assert_eq!(dec(150 * E16).mul(&dec(200 * E16)), dec(300 * E16));
    assert_eq!(dec(1).mul(&dec(999_999_999_999_999_999)), dec(0));
    assert_eq!(dec(100 * E16).div(&dec(300 * E16)), dec(333_333_333_333_333_333));
    assert_eq!(dec(7).div(&dec(200 * E16)), dec(3));
    let big = Decimal256 { atomics: Amount { hi: 1, lo: 0 } };
    assert_eq!(big.mul(&Decimal256::one()), big);
    assert_eq!(big.div(&dec(200 * E16)), dec(1u128 << 127));
    assert_eq!(
        dec(u128::MAX).mul(&dec(200 * E16)),
        Decimal256 { atomics: Amount { hi: 1, lo: u128::MAX - 1 } }
    );
}

#[test]
fn emission_rate_rises_under_the_low_trigger() {
    let c = config();
    assert_eq!(rate(&c, 5 * E16, 100 * E16), dec(150 * E16));
    assert_eq!(rate(&c, 7 * E16 - 1, 100 * E16), dec(150 * E16));
}

#[test]
fn emission_rate_falls_over_the_high_trigger() {
    let c = config();
    assert_eq!(rate(&c, 95 * E16 / 10, 100 * E16), dec(90 * E16));
    assert_eq!(rate(&c, 9 * E16 + 1, 100 * E16), dec(90 * E16));
}

#[test]
fn emission_rate_stays_between_the_triggers() {
    let c = config();
    assert_eq!(rate(&c, 7 * E16, 100 * E16), dec(100 * E16));
    assert_eq!(rate(&c, 8 * E16, 100 * E16), dec(100 * E16));
    assert_eq!(rate(&c, 9 * E16, 100 * E16), dec(100 * E16));
}

#[test]
fn emission_rate_is_held_between_floor_and_cap() {
    let c = config();
    assert_eq!(rate(&c, 5 * E16, 180 * E16), dec(200 * E16));
    assert_eq!(rate(&c, 10 * E16, 50 * E16), dec(50 * E16));
    assert_eq!(rate(&c, 8 * E16, 300 * E16), dec(200 * E16));
    assert_eq!(rate(&c, 8 * E16, 10 * E16), dec(50 * E16));
}

#[test]
fn only_supplied_fields_are_updated() {
    let mut c = config();
    assert_eq!(
        update_config(&mut c, b"owner", None, Some(dec(300 * E16)), None, None, Some(dec(80 * E16))),
        Ok(())
    );
    assert_eq!(c.owner, b"owner".to_vec());
    assert_eq!(c.emission_cap, dec(300 * E16));
    assert_eq!(c.emission_floor, dec(50 * E16));
    assert_eq!(c.increment_multiplier, dec(150 * E16));
    assert_eq!(c.decrement_multiplier, dec(80 * E16));
    let msg = ExecuteMsg::UpdateConfig {
        owner: Some(b"owner2".to_vec()),
        emission_cap: None,
        emission_floor: Some(dec(E16)),
        increment_multiplier: Some(dec(110 * E16)),
        decrement_multiplier: None,
    };
    assert_eq!(execute(&mut c, b"owner", msg), Ok(()));
    assert_eq!(c.owner, b"owner2".to_vec());
    assert_eq!(c.emission_cap, dec(300 * E16));
    assert_eq!(c.emission_floor, dec(E16));
    assert_eq!(c.increment_multiplier, dec(110 * E16));
    assert_eq!(c.decrement_multiplier, dec(80 * E16));
}

#[test]
fn only_the_owner_updates() {
    let mut c = config();
    assert_eq!(
        update_config(&mut c, b"other", Some(b"other".to_vec()), None, None, None, None),
        Err(ContractError::Unauthorized)
    );
    assert_eq!(c, config());
}

#[test]
fn queries_answer() {
    let c = config();
    let r = query_config(&c);
    assert_eq!(r.owner, b"owner".to_vec());
    assert_eq!(r.emission_cap, dec(200 * E16));
    assert_eq!(r.emission_floor, dec(50 * E16));
    assert_eq!(r.increment_multiplier, dec(150 * E16));
    assert_eq!(r.decrement_multiplier, dec(90 * E16));
    assert_eq!(query(&c, QueryMsg::Config), QueryResponse::Config(r));
    let q = QueryMsg::ApEmissionRate {
        deposit_rate: dec(5 * E16),
        target_deposit_rate: dec(10 * E16),
        threshold_deposit_rate: dec(6 * E16),
        current_emission_rate: dec(100 * E16),
    };
    match query(&c, q) {
        QueryResponse::ApEmissionRate(a) => assert_eq!(a.emission_rate, dec(150 * E16)),
        QueryResponse::Config(_) => panic!("the wrong answer"),
    }
}

#[test]
fn interest_config_is_stored() {
    let mut s = InterestStorage::new();
    assert_eq!(lending_core::interest_model::read_config(&s), Err(StdError::NotFound));
    let c = lending_core::interest_model::Config {
        owner: b"owner".to_vec(),
        base_rate: dec(2 * E16),
        interest_multiplier: dec(30 * E16),
    };
    lending_core::interest_model::store_config(&mut s, c.clone());
    assert_eq!(lending_core::interest_model::read_config(&s), Ok(&c));
}

#[test]
fn checked_decimal_operations() {
    let top = Decimal256 { atomics: Amount { hi: u128::MAX, lo: u128::MAX } };
    let half = Decimal256 { atomics: Amount { hi: 1, lo: 0 } };
    assert_eq!(top.checked_add(&dec(1)), None);
    assert_eq!(dec(3).checked_add(&dec(4)), Some(dec(7)));
    assert_eq!(half.checked_mul(&half), None);
    assert_eq!(dec(1).checked_mul(&dec(999_999_999_999_999_999)), Some(dec(0)));
    assert_eq!(dec(150 * E16).checked_mul(&dec(200 * E16)), Some(dec(300 * E16)));
    assert_eq!(dec(u128::MAX).checked_mul(&dec(u128::MAX)).is_some(), true);
    assert_eq!(dec(100 * E16).checked_div(&dec(0)), None);
    assert_eq!(top.checked_div(&dec(100 * E16)), None);
    assert_eq!(dec(100 * E16).checked_div(&dec(300 * E16)), Some(dec(333_333_333_333_333_333)));
}

#[test]
fn checked_emission_rate_agrees_or_is_none() {
    let c = config();
    let found = checked_ap_emission_rate(&c, dec(5 * E16), dec(10 * E16), dec(6 * E16), dec(100 * E16));
    assert_eq!(found.map(|f| f.emission_rate), Some(dec(150 * E16)));
    let top = Decimal256 { atomics: Amount { hi: u128::MAX, lo: u128::MAX } };
    assert_eq!(checked_ap_emission_rate(&c, dec(5 * E16), top, dec(6 * E16), dec(100 * E16)), None);
    assert_eq!(checked_ap_emission_rate(&c, dec(5 * E16), dec(10 * E16), dec(6 * E16), top), None);
    // between the triggers nothing is multiplied, so the largest rate passes and meets the cap
    let held = checked_ap_emission_rate(&c, dec(8 * E16), dec(10 * E16), dec(6 * E16), top);
    assert_eq!(held.map(|f| f.emission_rate), Some(dec(200 * E16)));
}

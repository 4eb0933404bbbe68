//! The emission-rate curve: how the yield-emission rate follows the deposit
//! rate, and the parameters that its owner may change.

use vstd::prelude::*;
use vstd::slice::slice_to_vec;
use crate::amount::{Decimal256, DECIMAL_FRACTIONAL, full_range, half_range};
use crate::store::bytes_eq;

verus! {

/// The curve's parameters. The owner is the bytes of an address.
#[derive(Clone, Debug, PartialEq, Eq)]
pub struct Config {
    pub owner: Vec<u8>,
    pub emission_cap: Decimal256,
    pub emission_floor: Decimal256,
    pub increment_multiplier: Decimal256,
    pub decrement_multiplier: Decimal256,
}

/// The parameters to start with.
#[derive(Clone, Debug, PartialEq, Eq)]
pub struct InstantiateMsg {
    pub owner: Vec<u8>,
    pub emission_cap: Decimal256,
    pub emission_floor: Decimal256,
    pub increment_multiplier: Decimal256,
    pub decrement_multiplier: Decimal256,
}

/// A request that changes the state.
#[derive(Clone, Debug, PartialEq, Eq)]
pub enum ExecuteMsg {
    UpdateConfig {
        owner: Option<Vec<u8>>,
        emission_cap: Option<Decimal256>,
        emission_floor: Option<Decimal256>,
        increment_multiplier: Option<Decimal256>,
        decrement_multiplier: Option<Decimal256>,
    },
}

/// A request that reads.
#[derive(Clone, Copy, Debug, PartialEq, Eq)]
pub enum QueryMsg {
    Config,
    ApEmissionRate {
        deposit_rate: Decimal256,
        target_deposit_rate: Decimal256,
        threshold_deposit_rate: Decimal256,
        current_emission_rate: Decimal256,
    },
}

/// The parameters, as a query gives them.
#[derive(Clone, Debug, PartialEq, Eq)]
pub struct ConfigResponse {
    pub owner: Vec<u8>,
    pub emission_cap: Decimal256,
    pub emission_floor: Decimal256,
    pub increment_multiplier: Decimal256,
    pub decrement_multiplier: Decimal256,
}

/// The emission rate to use next.
#[derive(Clone, Copy, Debug, PartialEq, Eq, Structural)]
pub struct ApEmissionRateResponse {
    pub emission_rate: Decimal256,
}

/// The answer to a query.
#[derive(Clone, Debug, PartialEq, Eq)]
pub enum QueryResponse {
    Config(ConfigResponse),
    ApEmissionRate(ApEmissionRateResponse),
}

/// Why a request was turned down.
#[derive(Clone, Copy, Debug, PartialEq, Eq, Structural)]
pub enum ContractError {
    Unauthorized,
}

/// The mean of two decimals, in atomics: their sum divided by the decimal
/// two, rounded down.
pub open spec fn mean(a: nat, b: nat) -> nat {
    ((a + b) * (DECIMAL_FRACTIONAL as nat)) / ((2 * DECIMAL_FRACTIONAL) as nat)
}

/// Whether the mean of two decimals can be computed in 256 bits.
pub open spec fn mean_fits(a: nat, b: nat) -> bool {
    (a + b) * (DECIMAL_FRACTIONAL as nat) < full_range()
}

/// The deposit rate under which the emission rate is raised.
pub open spec fn low_trigger(target: nat, threshold: nat) -> nat {
    mean(mean(threshold, target), threshold)
}

/// The deposit rate over which the emission rate is lowered.
pub open spec fn high_trigger(target: nat, threshold: nat) -> nat {
    mean(mean(threshold, target), target)
}

/// The emission rate before it is held between floor and cap, in atomics.
pub open spec fn adjusted_rate(
    config: Config,
    deposit: nat,
    target: nat,
    threshold: nat,
    current: nat,
) -> nat {
    if deposit < low_trigger(target, threshold) {
        (current * config.increment_multiplier.value()) / (DECIMAL_FRACTIONAL as nat)
    } else if deposit > high_trigger(target, threshold) {
        (current * config.decrement_multiplier.value()) / (DECIMAL_FRACTIONAL as nat)
    } else {
        current
    }
}

/// The emission rate to use next, in atomics: the adjusted rate, but the cap
/// where that is over the cap, else the floor where it is under the floor.
pub open spec fn emission_rate(
    config: Config,
    deposit: nat,
    target: nat,
    threshold: nat,
    current: nat,
) -> nat {
    let rate = adjusted_rate(config, deposit, target, threshold, current);
    if rate > config.emission_cap.value() {
        config.emission_cap.value()
    } else if rate < config.emission_floor.value() {
        config.emission_floor.value()
    } else {
        rate
    }
}

/// Whether every step of the emission rate can be computed in 256 bits.
pub open spec fn emission_rate_fits(
    config: Config,
    deposit: nat,
    target: nat,
    threshold: nat,
    current: nat,
) -> bool {
    &&& mean_fits(threshold, target)
    &&& mean_fits(mean(threshold, target), target)
    &&& mean_fits(mean(threshold, target), threshold)
    &&& deposit < low_trigger(target, threshold) ==> current * config.increment_multiplier.value()
        < full_range()
    &&& deposit >= low_trigger(target, threshold) && deposit > high_trigger(target, threshold)
        ==> current * config.decrement_multiplier.value() < full_range()
}

/// The state made from the first parameters.
pub fn instantiate(msg: InstantiateMsg) -> (r: Config)
    ensures
        r.owner@ == msg.owner@,
        r.emission_cap == msg.emission_cap,
        r.emission_floor == msg.emission_floor,
        r.increment_multiplier == msg.increment_multiplier,
        r.decrement_multiplier == msg.decrement_multiplier,
{
    Config {
        owner: msg.owner,
        emission_cap: msg.emission_cap,
        emission_floor: msg.emission_floor,
        increment_multiplier: msg.increment_multiplier,
        decrement_multiplier: msg.decrement_multiplier,
    }
}

/// What `update_config` makes of the parameters for the given sender and
/// fields: a field that is supplied is replaced, and the others stay.
pub open spec fn updated(
    before: Config,
    after: Config,
    owner: Option<Vec<u8>>,
    emission_cap: Option<Decimal256>,
    emission_floor: Option<Decimal256>,
    increment_multiplier: Option<Decimal256>,
    decrement_multiplier: Option<Decimal256>,
) -> bool {
    &&& after.owner@ == match owner {
        Some(o) => o@,
        None => before.owner@,
    }
    &&& after.emission_cap == match emission_cap {
        Some(v) => v,
        None => before.emission_cap,
    }
    &&& after.emission_floor == match emission_floor {
        Some(v) => v,
        None => before.emission_floor,
    }
    &&& after.increment_multiplier == match increment_multiplier {
        Some(v) => v,
        None => before.increment_multiplier,
    }
    &&& after.decrement_multiplier == match decrement_multiplier {
        Some(v) => v,
        None => before.decrement_multiplier,
    }
}

/// Changes the parameters that are supplied, on the owner's word.
pub fn update_config(
    config: &mut Config,
    sender: &[u8],
    owner: Option<Vec<u8>>,
    emission_cap: Option<Decimal256>,
    emission_floor: Option<Decimal256>,
    increment_multiplier: Option<Decimal256>,
    decrement_multiplier: Option<Decimal256>,
) -> (r: Result<(), ContractError>)
    ensures
        sender@ != old(config).owner@ ==> r == Err::<(), ContractError>(ContractError::Unauthorized)
            && *final(config) == *old(config),
        sender@ == old(config).owner@ ==> r is Ok && updated(
            *old(config),
            *final(config),
            owner,
            emission_cap,
            emission_floor,
            increment_multiplier,
            decrement_multiplier,
        ),
{
    if !bytes_eq(sender, config.owner.as_slice()) {
        return Err(ContractError::Unauthorized);
    }
    if let Some(owner) = owner {
        config.owner = owner;
    }
    if let Some(emission_cap) = emission_cap {
        config.emission_cap = emission_cap;
    }
    if let Some(emission_floor) = emission_floor {
        config.emission_floor = emission_floor;
    }
    if let Some(increment_multiplier) = increment_multiplier {
        config.increment_multiplier = increment_multiplier;
    }
    if let Some(decrement_multiplier) = decrement_multiplier {
        config.decrement_multiplier = decrement_multiplier;
    }
    Ok(())
}

/// Carries out a request that changes the state.
pub fn execute(
    config: &mut Config,
    sender: &[u8],
    msg: ExecuteMsg,
) -> (r: Result<(), ContractError>)
    ensures
        sender@ != old(config).owner@ ==> r == Err::<(), ContractError>(ContractError::Unauthorized)
            && *final(config) == *old(config),
        sender@ == old(config).owner@ ==> r is Ok && (msg matches ExecuteMsg::UpdateConfig {
            owner,
            emission_cap,
            emission_floor,
            increment_multiplier,
            decrement_multiplier,
        } && updated(
            *old(config),
            *final(config),
            owner,
            emission_cap,
            emission_floor,
            increment_multiplier,
            decrement_multiplier,
        )),
{
    match msg {
        ExecuteMsg::UpdateConfig {
            owner,
            emission_cap,
            emission_floor,
            increment_multiplier,
            decrement_multiplier,
        } => update_config(
            config,
            sender,
            owner,
            emission_cap,
            emission_floor,
            increment_multiplier,
            decrement_multiplier,
        ),
    }
}

/// The parameters, as a query gives them.
pub fn query_config(config: &Config) -> (r: ConfigResponse)
    ensures
        r.owner@ == config.owner@,
        r.emission_cap == config.emission_cap,
        r.emission_floor == config.emission_floor,
        r.increment_multiplier == config.increment_multiplier,
        r.decrement_multiplier == config.decrement_multiplier,
{
    ConfigResponse {
        owner: slice_to_vec(config.owner.as_slice()),
        emission_cap: config.emission_cap,
        emission_floor: config.emission_floor,
        increment_multiplier: config.increment_multiplier,
        decrement_multiplier: config.decrement_multiplier,
    }
}

/// The emission rate to use next: raised by the increment multiplier where
/// the deposit rate is under the low trigger, lowered by the decrement
/// multiplier where it is over the high trigger, and held between the floor
/// and the cap.
pub fn query_ap_emission_rate(
    config: &Config,
    deposit_rate: Decimal256,
    target_deposit_rate: Decimal256,
    threshold_deposit_rate: Decimal256,
    current_emission_rate: Decimal256,
) -> (r: ApEmissionRateResponse)
    requires
        emission_rate_fits(
            *config,
            deposit_rate.value(),
            target_deposit_rate.value(),
            threshold_deposit_rate.value(),
            current_emission_rate.value(),
        ),
    ensures
        r.emission_rate.value() == emission_rate(
            *config,
            deposit_rate.value(),
            target_deposit_rate.value(),
            threshold_deposit_rate.value(),
            current_emission_rate.value(),
        ),
{
    proof {
        lemma_fits_sum(threshold_deposit_rate.value(), target_deposit_rate.value());
        lemma_fits_sum(
            mean(threshold_deposit_rate.value(), target_deposit_rate.value()),
            target_deposit_rate.value(),
        );
        lemma_fits_sum(
            mean(threshold_deposit_rate.value(), target_deposit_rate.value()),
            threshold_deposit_rate.value(),
        );
        lemma_fits_sum(DECIMAL_FRACTIONAL as nat, DECIMAL_FRACTIONAL as nat);
    }
    let half_dec = Decimal256::one().add(&Decimal256::one());
    let mid_rate = threshold_deposit_rate.add(&target_deposit_rate).div(&half_dec);
    let high_trigger = mid_rate.add(&target_deposit_rate).div(&half_dec);
    let low_trigger = mid_rate.add(&threshold_deposit_rate).div(&half_dec);
    let emission_rate = if deposit_rate.lt(&low_trigger) {
        current_emission_rate.mul(&config.increment_multiplier)
    } else if high_trigger.lt(&deposit_rate) {
        current_emission_rate.mul(&config.decrement_multiplier)
    } else {
        current_emission_rate
    };
    let emission_rate = if config.emission_cap.lt(&emission_rate) {
        config.emission_cap
    } else if emission_rate.lt(&config.emission_floor) {
        config.emission_floor
    } else {
        emission_rate
    };
    ApEmissionRateResponse { emission_rate }
}

/// The mean of two decimals, or `None` where it cannot be computed in 256
/// bits.
fn checked_mean(a: &Decimal256, b: &Decimal256) -> (r: Option<Decimal256>)
    ensures
        r is Some <==> mean_fits(a.value(), b.value()),
        r matches Some(m) ==> m.value() == mean(a.value(), b.value()),
{
    proof {
        lemma_fits_sum(DECIMAL_FRACTIONAL as nat, DECIMAL_FRACTIONAL as nat);
        if mean_fits(a.value(), b.value()) {
            lemma_fits_sum(a.value(), b.value());
        }
        assert(a.value() + b.value() >= full_range() ==> (a.value() + b.value()) * (
        DECIMAL_FRACTIONAL as nat) >= full_range()) by (nonlinear_arith)
            requires
                DECIMAL_FRACTIONAL >= 1,
        ;
    }
    let half_dec = Decimal256::one().add(&Decimal256::one());
    match a.checked_add(b) {
        Some(sum) => sum.checked_div(&half_dec),
        None => None,
    }
}

/// The emission rate to use next, or `None` where a step of it cannot be
/// computed in 256 bits.
pub fn checked_ap_emission_rate(
    config: &Config,
    deposit_rate: Decimal256,
    target_deposit_rate: Decimal256,
    threshold_deposit_rate: Decimal256,
    current_emission_rate: Decimal256,
) -> (r: Option<ApEmissionRateResponse>)
    ensures
        r is Some <==> emission_rate_fits(
            *config,
            deposit_rate.value(),
            target_deposit_rate.value(),
            threshold_deposit_rate.value(),
            current_emission_rate.value(),
        ),
        r matches Some(found) ==> found.emission_rate.value() == emission_rate(
            *config,
            deposit_rate.value(),
            target_deposit_rate.value(),
            threshold_deposit_rate.value(),
            current_emission_rate.value(),
        ),
{
    let mid_rate = match checked_mean(&threshold_deposit_rate, &target_deposit_rate) {
        Some(m) => m,
        None => {
            return None;
        },
    };
    let high_trigger = match checked_mean(&mid_rate, &target_deposit_rate) {
        Some(m) => m,
        None => {
            return None;
        },
    };
    let low_trigger = match checked_mean(&mid_rate, &threshold_deposit_rate) {
        Some(m) => m,
        None => {
            return None;
        },
    };
    let fits = if deposit_rate.lt(&low_trigger) {
        current_emission_rate.checked_mul(&config.increment_multiplier).is_some()
    } else if high_trigger.lt(&deposit_rate) {
        current_emission_rate.checked_mul(&config.decrement_multiplier).is_some()
    } else {
        true
    };
    if fits {
        Some(
            query_ap_emission_rate(
                config,
                deposit_rate,
                target_deposit_rate,
                threshold_deposit_rate,
                current_emission_rate,
            ),
        )
    } else {
        None
    }
}

/// A sum whose multiple fits in 256 bits fits in 256 bits, and so does twice
/// the decimal one.
pub proof fn lemma_fits_sum(a: nat, b: nat)
    requires
        mean_fits(a, b) || (a == DECIMAL_FRACTIONAL && b == DECIMAL_FRACTIONAL),
    ensures
        a + b < full_range(),
{
    assert(half_range() * half_range() >= half_range()) by (nonlinear_arith)
        requires
            half_range() >= 1,
    ;
    if mean_fits(a, b) {
        assert((a + b) * (DECIMAL_FRACTIONAL as nat) >= a + b) by (nonlinear_arith)
            requires
                DECIMAL_FRACTIONAL >= 1,
        ;
    }
}

/// Answers a request that reads.
pub fn query(config: &Config, msg: QueryMsg) -> (r: QueryResponse)
    requires
        msg matches QueryMsg::ApEmissionRate {
            deposit_rate,
            target_deposit_rate,
            threshold_deposit_rate,
            current_emission_rate,
        } ==> emission_rate_fits(
            *config,
            deposit_rate.value(),
            target_deposit_rate.value(),
            threshold_deposit_rate.value(),
            current_emission_rate.value(),
        ),
    ensures
        match msg {
            QueryMsg::Config => r matches QueryResponse::Config(c) && c.owner@ == config.owner@
                && c.emission_cap == config.emission_cap && c.emission_floor
                == config.emission_floor && c.increment_multiplier == config.increment_multiplier
                && c.decrement_multiplier == config.decrement_multiplier,
            QueryMsg::ApEmissionRate {
                deposit_rate,
                target_deposit_rate,
                threshold_deposit_rate,
                current_emission_rate,
            } => r matches QueryResponse::ApEmissionRate(a) && a.emission_rate.value()
                == emission_rate(
                *config,
                deposit_rate.value(),
                target_deposit_rate.value(),
                threshold_deposit_rate.value(),
                current_emission_rate.value(),
            ),
        },
{
    match msg {
        QueryMsg::Config => QueryResponse::Config(query_config(config)),
        QueryMsg::ApEmissionRate {
            deposit_rate,
            target_deposit_rate,
            threshold_deposit_rate,
            current_emission_rate,
        } => QueryResponse::ApEmissionRate(
            query_ap_emission_rate(
                config,
                deposit_rate,
                target_deposit_rate,
                threshold_deposit_rate,
                current_emission_rate,
            ),
        ),
    }
}

} // verus!

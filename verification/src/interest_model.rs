//! The interest model's parameters.

use vstd::prelude::*;
use crate::amount::Decimal256;

verus! {

/// The interest curve's parameters. The owner is the bytes of an address.
#[derive(Clone, Debug, PartialEq, Eq)]
pub struct Config {
    pub owner: Vec<u8>,
    pub base_rate: Decimal256,
    pub interest_multiplier: Decimal256,
}

/// The interest model's state: the parameters, once they are stored.
pub struct InterestStorage {
    pub config: Option<Config>,
}

/// Why a read of the state failed.
#[derive(Clone, Copy, Debug, PartialEq, Eq, Structural)]
pub enum StdError {
    /// Nothing was stored yet.
    NotFound,
}

impl InterestStorage {
    /// A state with nothing stored.
    pub fn new() -> (r: InterestStorage)
        ensures
            r.config is None,
    {
        InterestStorage { config: None }
    }
}

/// Keeps the parameters, in place of any earlier ones.
pub fn store_config(storage: &mut InterestStorage, config: Config)
    ensures
        final(storage).config == Some(config),
{
    storage.config = Some(config);
}

/// The parameters, or `NotFound` where none were stored.
pub fn read_config(storage: &InterestStorage) -> (r: Result<&Config, StdError>)
    ensures
        match storage.config {
            Some(c) => r == Ok::<&Config, StdError>(&c),
            None => r == Err::<&Config, StdError>(StdError::NotFound),
        },
{
    match &storage.config {
        Some(c) => Ok(c),
        None => Err(StdError::NotFound),
    }
}

} // verus!

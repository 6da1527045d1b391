use vstd::prelude::*;

verus! {

/// Failures of the vault's share, fee and price computations.
#[derive(Clone, Copy, Debug, PartialEq, Eq, Structural)]
pub enum CarrotAmmError {
    InvalidDestinationMint,
    InvalidSourceMint,
    SharesStateNotInitialized,
    AssetNotFound,
    InvalidTokenCalculation,
    InsufficientLiquidity,
    InvalidFeeCalculation,
    OraclePriceStale,
}

impl CarrotAmmError {
    /// The error's numeric code.
    pub fn code(&self) -> (r: u32)
        ensures
            r == self.spec_code(),
    {
        match self {
            CarrotAmmError::InvalidDestinationMint => 0,
            CarrotAmmError::InvalidSourceMint => 1,
            CarrotAmmError::SharesStateNotInitialized => 2,
            CarrotAmmError::AssetNotFound => 3,
            CarrotAmmError::InvalidTokenCalculation => 4,
            CarrotAmmError::InsufficientLiquidity => 5,
            CarrotAmmError::InvalidFeeCalculation => 6,
            CarrotAmmError::OraclePriceStale => 7,
        }
    }

    pub open spec fn spec_code(&self) -> u32 {
        match self {
            CarrotAmmError::InvalidDestinationMint => 0,
            CarrotAmmError::InvalidSourceMint => 1,
            CarrotAmmError::SharesStateNotInitialized => 2,
            CarrotAmmError::AssetNotFound => 3,
            CarrotAmmError::InvalidTokenCalculation => 4,
            CarrotAmmError::InsufficientLiquidity => 5,
            CarrotAmmError::InvalidFeeCalculation => 6,
            CarrotAmmError::OraclePriceStale => 7,
        }
    }
}

} // verus!

verus! {

/// Failures of decoding an account.
#[derive(Clone, Copy, Debug, PartialEq, Eq, Structural)]
pub enum LoadError {
    /// The price account's verification level byte is neither partial (0) nor full (1).
    UnknownVerificationLevel,
}

} // verus!

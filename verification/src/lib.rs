//! Share, fee and price arithmetic of a multi-asset vault, together with the
//! decoders for the vault's on-chain account layouts.

pub mod errors;
pub mod fee;
pub mod le;
pub mod math;
pub mod math_laws;
pub mod oracle;
pub mod pubkey;
pub mod state;

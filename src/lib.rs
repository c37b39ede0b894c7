//! Conversion of a wallet's key material between a desktop wallet's stored
//! document and output-descriptor text.
pub mod codec;
pub mod decimal;
pub mod document;
pub mod descriptor;
pub mod error;
pub mod fields;
mod text;
pub mod wallet;
pub mod wallet_type;

pub use codec::ScriptKind;
pub use error::WalletError;
pub use wallet::{Addresses, DescriptorKey, ElectrumWalletFile, Keystore};
pub use wallet_type::WalletType;

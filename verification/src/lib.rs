//! Building and reading CAdES (CMS SignedData) envelopes in DER.
pub mod der;
pub mod order;
pub mod oid;
pub mod digest;
pub mod time;
pub mod cms;
pub mod read;
pub mod error;
pub mod signer;
pub mod cades;
pub mod laws;
pub mod encoding_laws;
pub mod sign;
pub mod cli;

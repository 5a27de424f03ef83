//! Attested-channel library: a verified attestation-document pipeline
//! (CBOR payload codec, platform-measurement identity, certificate-chain
//! policy) and the authenticated request/response protocol built on it.

pub mod cbor;
pub mod attestation;
pub mod image_id;
pub mod protocol;
pub mod chain;
pub mod verify;

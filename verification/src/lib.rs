//! Audits build-execution logs for non-deterministic actions: records that
//! share an identity fingerprint but declare different outputs.

pub mod decoder;
pub mod fingerprint;
pub mod hexcode;
pub mod outputs;
pub mod record;
pub mod tracker;

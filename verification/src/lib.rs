//! Encrypted peer-to-peer folder synchronization.
use vstd::prelude::*;

pub mod application_laws;
pub mod applier;
pub mod apply;
pub mod apply_laws;
pub mod batch;
pub mod bytes;
pub mod catalog;
pub mod chance;
pub mod client;
pub mod commit_laws;
pub mod conflict;
pub mod conflict_name;
pub mod conflict_record;
pub mod content;
pub mod content_laws;
pub mod crypto;
pub mod cycle;
pub mod daemon;
pub mod discovery;
pub mod discovery_laws;
pub mod envelope;
pub mod exchange;
pub mod exchange_laws;
pub mod fields;
pub mod footprint;
pub mod format_laws;
pub mod frame;
pub mod handshake;
pub mod hexadecimal;
pub mod history;
pub mod identity;
pub mod ids;
pub mod intake_laws;
pub mod joining;
pub mod keeping_laws;
pub mod keys;
pub mod loading;
pub mod log_laws;
pub mod manifest;
pub mod member_laws;
pub mod message;
pub mod naming_laws;
pub mod object_laws;
pub mod oneof;
pub mod opening;
pub mod order;
pub mod outcome;
pub mod path;
pub mod path_laws;
pub mod placement;
pub mod procedure_laws;
pub mod proto;
pub mod protocol;
pub mod pull;
pub mod record;
pub mod record_laws;
pub mod revision_laws;
pub mod scan;
pub mod scan_laws;
pub mod scanning_laws;
pub mod serve;
pub mod session;
pub mod session_laws;
pub mod setting_laws;
pub mod setup;
pub mod store;
pub mod store_laws;
pub mod switching;
pub mod sync_laws;
pub mod table;
pub mod talk_laws;
pub mod text;
pub mod transfer;
pub mod transport;
pub mod version;
pub mod wire;
pub mod wire_laws;
pub mod workspace;

verus! {

pub const PROTOCOL_VERSION: u16 = 1;

} // verus!

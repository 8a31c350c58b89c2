//! Verified core of the UpSPA and TSPA password-authentication protocols.
//!
//! The crate holds the protocol state machines (storage provider, login server and
//! client), the agreement rules, the threshold arithmetic and the message layouts.
//! Sockets, clocks, threads and result files are left to the program around it.

pub mod account_journeys;
pub mod accounts;
pub mod agreement;
pub mod agreement_rules;
pub mod benchmark;
pub mod benchmark_journeys;
pub mod benchmark_rules;
pub mod bytes;
pub mod client;
pub mod course;
pub mod crypto;
pub mod crypto_rules;
pub mod crypto_tspa;
pub mod flow;
pub mod group;
pub mod identification_rules;
pub mod interpolation;
pub mod journeys;
pub mod login_server;
pub mod messages;
pub mod node_rules;
pub mod password;
pub mod phase_rules;
pub mod provider;
pub mod provider_laws;
pub mod provider_rules;
pub mod random;
pub mod round_trip;
pub mod scalar;
pub mod signature;
pub mod sp;
pub mod stage;
pub mod step_rules;
pub mod system;
pub mod system_laws;
pub mod system_rules;
pub mod table;
pub mod trace;
pub mod trace_rules;
pub mod transport;
pub mod tspa_adapter;
pub mod tspa_client;
pub mod tspa_journeys;
pub mod wire;

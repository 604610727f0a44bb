//! A sandbox backend that runs one command per throwaway virtual machine:
//! policy validation, the machine blueprint, the host/guest wire protocol,
//! the user-mode network gate's decisions, and the command-line contract.

pub mod agent;
pub mod base64;
pub mod bytes;
pub mod cli;
pub mod client;
pub mod dns;
pub mod dns_laws;
pub mod exec_plan;
pub mod executor;
pub mod filter;
pub mod flows;
pub mod frame;
pub mod gate;
pub mod gate_laws;
pub mod guard;
pub mod ip;
pub mod ip_text;
pub mod ip_text_laws;
pub mod json;
pub mod message;
pub mod paths;
pub mod pattern;
pub mod policy;
pub mod relay;
pub mod runner;
pub mod session;
pub mod text;
pub mod text_laws;
pub mod validate;
pub mod vm_spec;
pub mod wire;
pub mod wire_laws;
pub mod wire_reply;

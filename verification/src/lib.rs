//! A verified WS-Management client runtime for Intel AMT, with the APF
//! port-forwarding protocol that carries it over HECI.

pub mod error;
pub mod text;

pub mod message;
pub mod schema;
pub mod selector;
pub mod envelope;
pub mod scan;
pub mod parse;
pub mod response;
pub mod digest;
pub mod transport;
pub mod client;
pub mod heci;
pub mod session;
pub mod apf_transport;
pub mod amt;

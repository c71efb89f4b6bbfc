//! Identity provider core: the signed-cookie session model, the external
//! login flow, and the identity store with its uniqueness rules.

mod clock;
pub mod flow;
pub mod identity;
pub mod service;
pub mod session;
pub mod text;

//! Software catalog and installation-request backend: the relational store,
//! the request lifecycle state machine and the role checks around them.

pub mod status;
pub mod text;
pub mod model;
pub mod credentials;
pub mod ids;
pub mod store;
pub mod lifecycle;
pub mod catalog;
pub mod auth;
pub mod card;
pub mod laws;

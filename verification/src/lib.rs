//! Core of a newsletter-subscription backend: environment-driven
//! configuration resolution, a secret-bearing connection descriptor,
//! form decoding for the subscription endpoint, and the request-level
//! decisions of the two HTTP routes.
//!
//! Everything here is plain computation with a contract; the process
//! entry point wires it to the HTTP framework and the database.

pub mod configuration;
pub mod forms;
pub mod routes;
pub mod secret;
pub mod subscriptions;
pub mod text;

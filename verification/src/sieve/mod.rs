//! The Sieve scripts of an account: the objects of a set request, the store
//! that holds the scripts, and the manager that creates, updates, destroys and
//! activates them.
pub mod activate;
pub mod compile;
pub mod laws;
pub mod object;
pub mod request;
pub mod request_laws;
pub mod script_set;
pub mod set;
pub mod steps;
pub mod store;
pub mod validate;

//! The housekeeping core of a mail server: the queue and scheduler of periodic
//! maintenance, the protocol that installs a reloaded configuration, and the
//! manager of the Sieve scripts of an account.
pub mod housekeeper;
pub mod queue;
pub mod reload;
pub mod sieve;

//! The provisioner is responsible for assembling a relay chain block
//! from a set of available parachain candidates of its choice.
//!
//! The library makes the provisioner's decisions; it neither waits nor sends. Two state machines
//! carry them:
//!
//! - [`ProvisioningJob`] collects what could go into a block and decides when a request for inherent
//!   data is to be answered.
//! - [`InherentAssembly`] makes inherent data from what a job has collected. It says what it needs to
//!   know of the chain, the runtime and the other subsystems, takes the answers, and in the end has
//!   the data or an error.
//!
//! Both are built from functions that each make one decision: which availability bitfields to pick
//! and what they say of a core ([`bitfields`]), which candidates to pick ([`candidates`],
//! [`selection`]), and which statements on disputes to hand on ([`disputes`]).
//!
//! What holds of every run, whatever the answers, stands as public proof functions whose names start
//! with `law_`: beside the functions they speak of, and in [`runs`] where they speak of a whole
//! selection or a whole assembly.

pub mod bitfields;
pub mod bits;
pub mod candidates;
pub mod disputes;
pub mod error;
pub mod hash;
pub mod inherent;
pub mod job;
pub mod primitives;
pub mod runs;
pub mod selection;

pub use error::Error;
pub use inherent::InherentAssembly;
pub use job::ProvisioningJob;

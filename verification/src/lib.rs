//! Hazard pointers: deferring the deletion of objects until no reader uses them any more.
//!
//! A reader takes a hazard pointer from a [`HazPtrDomain`] with a [`HazPtrHolder`] and announces
//! the address of what it reads. A writer retires an object in the domain, and the object goes to
//! deletion once no active hazard pointer announces its address.

pub mod acquirer;
pub mod deleter;
pub mod disposer;
pub mod domain;
pub mod domains;
pub mod exact;
mod family;
pub mod history;
pub mod holder;
pub mod laws;
pub mod model;
pub mod obj;
pub mod protocol;
pub mod ptr;
pub mod reclaimer;
pub mod source;
pub mod steps;
pub mod sweep;
pub mod tally;
pub mod timing;
pub mod transitive;
pub mod undisturbed;

pub use acquirer::Acquirer;
pub use deleter::{Deleter, Reclaim, Retired};
pub use disposer::Disposer;
pub use domain::HazPtrDomain;
pub use domains::{Domains, Number};
pub use holder::HazPtrHolder;
pub use model::DomainId;
pub use obj::{HazPtrObject, HazPtrObjectWrapper};
pub use ptr::HazPtr;
pub use reclaimer::Reclaimer;

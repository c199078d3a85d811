//! Subjects and observers.
//!
//! A [`subject::Subject`] owns a value and notifies the observers registered
//! to it after every change of that value. Observers are held by non-owning
//! references: the library never keeps an observer alive, and drops the
//! registration of an observer that is gone the next time it notifies.
//!
//! [`Observers`] is the registry that the subjects are built on. Its state
//! and operations are described in [`model`]; [`runs`] holds what follows for
//! every sequence of operations. [`collections`] applies the registry to a
//! list and a double-ended queue.

pub mod collections;
pub mod model;
pub mod observer;
pub mod registry;
pub mod runs;
pub mod subject;

pub use observer::Observer;
pub use observer::ObserverRef;
pub use registry::ObserverRegistry;
pub use registry::Observers;

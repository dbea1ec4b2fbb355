//! The state the command surface shares between requests: the configuration and the
//! registry of live sessions, each behind its own lock.
use vstd::prelude::*;
use std::sync::Mutex;
use crate::config::Config;
use crate::registry::SessionRegistry;

verus! {

#[verifier::external_type_specification]
#[verifier::external_body]
#[verifier::reject_recursive_types(T)]
pub struct ExMutex<T: ?Sized>(std::sync::Mutex<T>);

/// Relies on `std::sync::Mutex::new`: an unlocked mutex that owns the value.
pub assume_specification<T>[ std::sync::Mutex::<T>::new ](t: T) -> std::sync::Mutex<T>;

/// The configuration and the live sessions, `H` being the handle that cancels a session.
#[verifier::reject_recursive_types(H)]
pub struct ApplicationState<H> {
    pub config: Mutex<Config>,
    pub active_consumers: Mutex<SessionRegistry<H>>,
}

impl<H> ApplicationState<H> {
    /// The built-in configuration and no live session.
    pub fn load() -> Self {
        ApplicationState {
            config: Mutex::new(Config::load()),
            active_consumers: Mutex::new(SessionRegistry::new()),
        }
    }
}

} // verus!

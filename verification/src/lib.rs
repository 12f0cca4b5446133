//! Actor framework core: outbound priority scheduling, name registries,
//! type registries for remote deserialization, mailbox configuration and
//! the test harness's fault bookkeeping.

pub mod clock;
pub mod message;
pub mod remote;
pub mod outbound_model;
pub mod outbound_queue;
pub mod outbound_laws;
pub mod name_map;
pub mod registry;
pub mod actor;
pub mod type_registry;
pub mod events;
pub mod fault;
pub mod mailbox;

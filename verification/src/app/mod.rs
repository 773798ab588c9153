//! The program's state, and how it answers to keys, clicks and events. Whatever
//! has to be done outside is put into an outbox as an effect; its result comes
//! back as an event.
pub mod types;
pub mod rows;
pub mod edit;
pub mod sync;
pub mod activity;
pub mod watching;
pub mod forms;
pub mod input;
pub mod laws;
pub mod delivery;
pub mod choices;

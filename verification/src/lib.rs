//! Verified core of the event-timers addon: the configuration data model and
//! the rules that merge user overrides into the default track set and diff
//! the live tracks back into overrides.

pub mod event_id;
pub mod options;
pub mod tracks;
pub mod overrides;
pub mod config;
pub mod laws;

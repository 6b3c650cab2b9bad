//! Automatic routing of MIDI devices: a preference store that declares the role and
//! direction of each port, a reconciliation engine that turns those declarations and the
//! live port graph into subscribe / unsubscribe operations, and the view model of the
//! interactive port list.

pub mod prefs;
pub mod ports;
pub mod model;

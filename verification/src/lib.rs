//! Shows the outbound address of this machine, behind whatever proxy it goes through, in the
//! taskbar.

pub mod address;
pub mod agent;
pub mod config;
pub mod drawing;
pub mod json;
pub mod plugin;
pub mod probe;
pub mod proxy;
pub mod text;
pub mod wide;
pub mod worker;

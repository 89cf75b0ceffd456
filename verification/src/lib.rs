//! Verified building blocks for Container Network Interface (CNI) plugins:
//! the plugin protocol runtime, an IPAM allocation engine over a
//! compare-and-swap key-value store, and the decision logic of a host
//! network mutator.

pub mod allocator;
pub mod config;
pub mod consul;
pub mod delegation;
pub mod error;
pub mod hostnet;
pub mod ip;
pub mod iprange;
pub mod json;
pub mod kv;
pub mod macaddr;
pub mod reply;
pub mod selector;
pub mod runtime;
pub mod text;
pub mod version;

use vstd::prelude::*;

verus! {

/// The commands a CNI plugin can be invoked with.
#[derive(Clone, Copy, Debug, PartialEq, Eq, Structural)]
pub enum Command {
    /// Add a container to a network, or apply modifications.
    Add,
    /// Remove a container from a network, or un-apply modifications.
    Del,
    /// Check that a container's networking is as expected.
    Check,
    /// Probe the plugin's supported CNI spec versions.
    Version,
}

impl Command {
    /// The exact environment-variable spelling of this command.
    pub fn as_str(&self) -> (r: &'static str)
        ensures
            r@ == self.spec_str(),
    {
        match self {
            Command::Add => "ADD",
            Command::Del => "DEL",
            Command::Check => "CHECK",
            Command::Version => "VERSION",
        }
    }

    /// What `as_str` returns, in specification land.
    pub open spec fn spec_str(self) -> Seq<char> {
        match self {
            Command::Add => "ADD"@,
            Command::Del => "DEL"@,
            Command::Check => "CHECK"@,
            Command::Version => "VERSION"@,
        }
    }
}

} // verus!

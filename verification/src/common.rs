//! The release channels of the browser.

use vstd::prelude::*;

verus! {

/// A release channel, from the most to the least settled.
#[derive(Copy, Clone, PartialEq, Eq, PartialOrd, Ord, Debug, Structural)]
pub enum ReleaseChannel {
    Stable,
    Beta,
    Dev,
    Canary,
}

/// The name by which the release history knows `channel`.
pub open spec fn channel_name(channel: ReleaseChannel) -> Seq<char> {
    match channel {
        ReleaseChannel::Stable => "stable"@,
        ReleaseChannel::Beta => "beta"@,
        ReleaseChannel::Dev => "dev"@,
        ReleaseChannel::Canary => "canary"@,
    }
}

impl ReleaseChannel {
    /// The name by which the release history knows the channel.
    pub fn as_constant(&self) -> (name: &'static str)
        ensures
            name@ == channel_name(*self),
    {
        match self {
            ReleaseChannel::Stable => "stable",
            ReleaseChannel::Beta => "beta",
            ReleaseChannel::Dev => "dev",
            ReleaseChannel::Canary => "canary",
        }
    }
}

} // verus!

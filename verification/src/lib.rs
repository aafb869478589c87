//! Core logic of an automated channel moderator: it tracks how long each
//! member of a chat channel has been present and grants the "voice"
//! privilege to members that have waited out a configured cooldown.

pub mod args;
pub mod event;
pub mod promote;
pub mod store;
pub mod text;

use vstd::prelude::*;

verus! {

/// Role-prefix markers that mean a member already holds a privilege.
pub open spec fn spec_special_prefixes() -> Seq<char> {
    seq!['@', '+', '~', '&', '%']
}

} // verus!

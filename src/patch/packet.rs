//! The records the patch server exchanges, as one set.
use vstd::prelude::*;

pub use crate::packet::patch::{
    ChangeDirectory, FileInfo, FileInfoReply, LoginReply, Message, PatchEndList, PatchStartList,
    PatchWelcome, PatchWelcomeReply, RedirectClient, RequestLogin, UpOneDirectory,
};

verus! {

/// Tells the client that patching is over (`FinalizePatching`).
pub type EndIt = crate::packet::patch::FinalizePatching;

} // verus!

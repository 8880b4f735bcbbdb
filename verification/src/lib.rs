//! The core of a minimal chat-protocol server: a shared user directory with a
//! case-insensitive nickname-uniqueness invariant, a command parser for raw
//! client lines, and a dispatcher that turns a parsed command into a directory
//! operation or query plus a textual reply. Connection handling and socket I/O
//! live outside this crate and hand each command's tokens in as plain values.

use vstd::prelude::*;

pub mod directory;
pub mod parser;
pub mod clock;
pub mod server;
pub mod fold;

verus! {

/// Error classifications for rejected or failed commands. Numeric wire codes
/// are not modelled; the variants themselves are the taxonomy.
#[derive(Clone, Copy, Debug, PartialEq, Eq, Structural)]
pub enum Errors {
    /// NICK was issued with an empty (after case-folding) nickname.
    ErrNoNickNameGiven,
    /// Another connection already holds the requested case-folded nickname.
    ErrNickNameInUse,
    /// USERS listing is globally disabled.
    ErrUserDisabled,
    /// A command that needs arguments was issued without enough of them.
    ErrNeedMoreParams,
    /// USER was issued by a connection that never completed a NICK.
    ErrNoSuchIdentity,
    /// The command name matched no recognized handler.
    UnknownCommand,
}

} // verus!

//! The commands of the line-oriented RPC mode and the state it reports.

use vstd::prelude::*;

verus! {

broadcast use vstd::string::group_string_axioms;

/// A command read from the RPC input; each may carry an id that the reply
/// echoes.
#[derive(Debug)]
pub enum RpcCommand {
    Prompt { id: Option<String>, message: String },
    Abort { id: Option<String> },
    GetState { id: Option<String> },
    GetMessages { id: Option<String> },
    Compact { id: Option<String>, custom_instructions: Option<String> },
    SetAutoCompaction { id: Option<String>, enabled: bool },
}

/// The id a command carries.
pub open spec fn command_id(c: RpcCommand) -> Option<String> {
    match c {
        RpcCommand::Prompt { id, .. } => id,
        RpcCommand::Abort { id } => id,
        RpcCommand::GetState { id } => id,
        RpcCommand::GetMessages { id } => id,
        RpcCommand::Compact { id, .. } => id,
        RpcCommand::SetAutoCompaction { id, .. } => id,
    }
}

/// The name of a command's kind, as its `type` field gives it.
pub open spec fn command_type(c: RpcCommand) -> Seq<char> {
    match c {
        RpcCommand::Prompt { .. } => "prompt"@,
        RpcCommand::Abort { .. } => "abort"@,
        RpcCommand::GetState { .. } => "get_state"@,
        RpcCommand::GetMessages { .. } => "get_messages"@,
        RpcCommand::Compact { .. } => "compact"@,
        RpcCommand::SetAutoCompaction { .. } => "set_auto_compaction"@,
    }
}

impl RpcCommand {
    /// The id the caller gave the command, if any.
    pub fn id(&self) -> (r: Option<&str>)
        ensures
            match command_id(*self) {
                Some(s) => r matches Some(x) && x@ == s@,
                None => r is None,
            },
    {
        let id = match self {
            RpcCommand::Prompt { id, .. } => id,
            RpcCommand::Abort { id } => id,
            RpcCommand::GetState { id } => id,
            RpcCommand::GetMessages { id } => id,
            RpcCommand::Compact { id, .. } => id,
            RpcCommand::SetAutoCompaction { id, .. } => id,
        };
        match id {
            Some(s) => Some(s.as_str()),
            None => None,
        }
    }

    /// The name of the command's kind.
    pub fn kind_name(&self) -> (r: &str)
        ensures
            r@ == command_type(*self),
    {
        match self {
            RpcCommand::Prompt { .. } => "prompt",
            RpcCommand::Abort { .. } => "abort",
            RpcCommand::GetState { .. } => "get_state",
            RpcCommand::GetMessages { .. } => "get_messages",
            RpcCommand::Compact { .. } => "compact",
            RpcCommand::SetAutoCompaction { .. } => "set_auto_compaction",
        }
    }
}

/// The session state that `get_state` reports.
#[derive(Debug, Clone, Copy, PartialEq, Eq, Structural)]
pub struct RpcSessionState {
    pub is_streaming: bool,
    pub message_count: usize,
    pub auto_compaction_enabled: bool,
}

/// A stored API key and, optionally, its provider.
#[derive(Debug, Clone, PartialEq, Eq)]
pub struct PersistedAuth {
    pub api_key: String,
    pub provider: Option<String>,
}

/// The stored key is used only when it is not blank.
pub fn accept_persisted_auth(parsed: Option<PersistedAuth>) -> (r: Option<PersistedAuth>)
    ensures
        match parsed {
            Some(a) => if crate::text::trim_ws(a.api_key@).len() == 0 {
                r is None
            } else {
                r == Some(a)
            },
            None => r is None,
        },
{
    match parsed {
        Some(a) => {
            let c = crate::text::chars_of(a.api_key.as_str());
            if crate::text::trim_exec(c.as_slice()).len() == 0 {
                None
            } else {
                Some(a)
            }
        },
        None => None,
    }
}

} // verus!

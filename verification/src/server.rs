//! What the server decides on its own: who may call, and what a command
//! of a connected client asks for.

use crate::text::{chars_of, copy_range, str_eq};
use vstd::prelude::*;
use vstd::string::StringExecFns;

verus! {

/// The status code of an answer to a call that is not authorized.
pub const UNAUTHORIZED_STATUS: u16 = 401;

/// The text of an answer to a call that is not authorized.
pub const UNAUTHORIZED: &'static str = "Unauthorized";

/// What stands before the token in the header of a call, in any case of
/// letters.
pub const BEARER: &'static str = "bearer ";

/// The code of a character, that of the small letter for a capital letter
/// of the Latin alphabet.
pub open spec fn folded(c: char) -> u32 {
    if 0x41 <= (c as u32) <= 0x5A {
        ((c as u32) + 0x20) as u32
    } else {
        c as u32
    }
}

/// Two texts are the same but for the case of Latin letters.
pub open spec fn same_but_case(a: Seq<char>, b: Seq<char>) -> bool {
    a.len() == b.len() && forall|i: int| 0 <= i < a.len() ==> folded(#[trigger] a[i]) == folded(b[i])
}

/// The token that calls have to carry: the one that is set, unless it is
/// empty.
pub open spec fn required_token(configured: Option<String>) -> Option<Seq<char>> {
    match configured {
        Some(token) => if token@.len() > 0 {
            Some(token@)
        } else {
            None
        },
        None => None,
    }
}

/// A header carries the token: it is longer than the word before the
/// token, starts with that word in any case of letters, and goes on with
/// the token.
pub open spec fn carries(header: Seq<char>, token: Seq<char>) -> bool {
    &&& header.len() > BEARER@.len()
    &&& same_but_case(header.subrange(0, BEARER@.len() as int), BEARER@)
    &&& header.subrange(BEARER@.len() as int, header.len() as int) == token
}

/// A call may pass: no token is required, or its header carries the
/// required token.
pub open spec fn authorized(configured: Option<String>, header: Option<String>) -> bool {
    match required_token(configured) {
        None => true,
        Some(token) => header matches Some(h) && carries(h@, token),
    }
}

fn fold(c: char) -> (code: u32)
    ensures
        code == folded(c),
{
    let code = c as u32;
    if 0x41 <= code && code <= 0x5A {
        code + 0x20
    } else {
        code
    }
}

fn equal_but_case(a: &[char], b: &[char]) -> (r: bool)
    ensures
        r == same_but_case(a@, b@),
{
    if a.len() != b.len() {
        return false;
    }
    let mut i: usize = 0;
    while i < a.len()
        invariant
            i <= a.len(),
            a.len() == b.len(),
            forall|j: int| 0 <= j < i ==> folded(#[trigger] a@[j]) == folded(b@[j]),
        decreases a.len() - i,
    {
        if fold(a[i]) != fold(b[i]) {
            return false;
        }
        i += 1;
    }
    true
}

/// Whether a call may pass. `configured` is the token that is set for the
/// service, `header` the authorization header of the call.
pub fn auth_middleware(configured: &Option<String>, header: &Option<String>) -> (r: bool)
    ensures
        r == authorized(*configured, *header),
{
    let token = match configured {
        Some(token) => {
            if token.as_str().is_empty() {
                return true;
            }
            token
        },
        None => {
            return true;
        },
    };
    let header = match header {
        Some(header) => chars_of(header.as_str()),
        None => {
            return false;
        },
    };
    let word = chars_of(BEARER);
    if header.len() <= word.len() {
        return false;
    }
    let start = copy_range(header.as_slice(), 0, word.len());
    if !equal_but_case(start.as_slice(), word.as_slice()) {
        return false;
    }
    let rest = copy_range(header.as_slice(), word.len(), header.len());
    let wanted = chars_of(token.as_str());
    crate::text::chars_eq(rest.as_slice(), wanted.as_slice())
}

// ---------------------------------------------------------------------------
// Commands of a connected client
// ---------------------------------------------------------------------------

/// A command as a client sent it.
pub struct ClientCommand {
    /// What is asked for.
    pub kind: Option<String>,
    pub workspace_id: Option<String>,
    pub path: Option<String>,
    pub change_type: Option<String>,
}

/// What a command asks for.
pub enum CommandAction {
    /// Nothing: the command is not known or lacks what it needs.
    Ignore,
    /// The events of this workspace are wanted.
    Subscribe { workspace_id: String },
    /// The events of this workspace are no longer wanted.
    Unsubscribe { workspace_id: String },
    /// The workspace is to be indexed in full.
    TriggerIndex { workspace_id: String },
    /// This file is to be indexed anew, once its path is found to lie in
    /// the workspace.
    ReindexFile { workspace_id: String, path: String, change_type: String },
}

/// The command to index one file anew.
pub const CMD_REINDEX_FILE: &'static str = "reindex_file";

/// The command to get the events of a workspace.
pub const CMD_SUBSCRIBE: &'static str = "subscribe_workspace";

/// The command to get the events of a workspace no longer.
pub const CMD_UNSUBSCRIBE: &'static str = "unsubscribe_workspace";

/// The command to index a workspace in full.
pub const CMD_TRIGGER_INDEX: &'static str = "trigger_index";

/// The kind of change of a file if the command names none.
pub const DEFAULT_CHANGE: &'static str = "modify";

/// The text of a field of a command; empty if the field is absent.
pub open spec fn text_of(value: Option<String>) -> Seq<char> {
    match value {
        Some(v) => v@,
        None => Seq::<char>::empty(),
    }
}

/// What `command` asks for.
pub open spec fn asks(command: ClientCommand, action: CommandAction) -> bool {
    let kind = text_of(command.kind);
    let workspace = text_of(command.workspace_id);
    let path = text_of(command.path);
    if kind == CMD_REINDEX_FILE@ && workspace.len() > 0 && path.len() > 0 {
        action matches CommandAction::ReindexFile { workspace_id, path: p, change_type }
            && workspace_id@ == workspace && p@ == path && change_type@ == (match command.change_type {
            Some(c) => c@,
            None => DEFAULT_CHANGE@,
        })
    } else if kind == CMD_SUBSCRIBE@ && command.workspace_id is Some {
        action matches CommandAction::Subscribe { workspace_id } && workspace_id@ == workspace
    } else if kind == CMD_UNSUBSCRIBE@ && command.workspace_id is Some {
        action matches CommandAction::Unsubscribe { workspace_id } && workspace_id@ == workspace
    } else if kind == CMD_TRIGGER_INDEX@ && workspace.len() > 0 {
        action matches CommandAction::TriggerIndex { workspace_id } && workspace_id@ == workspace
    } else {
        action is Ignore
    }
}

fn text(value: &Option<String>) -> (r: String)
    ensures
        r@ == text_of(*value),
{
    match value {
        Some(v) => v.clone(),
        None => String::new(),
    }
}

/// Reads a command of a connected client.
pub fn handle_socket(command: &ClientCommand) -> (action: CommandAction)
    ensures
        asks(*command, action),
{
    let kind = text(&command.kind);
    let workspace = text(&command.workspace_id);
    let path = text(&command.path);
    if str_eq(kind.as_str(), CMD_REINDEX_FILE) && !workspace.as_str().is_empty()
        && !path.as_str().is_empty() {
        let change_type = match &command.change_type {
            Some(c) => c.clone(),
            None => String::from_str(DEFAULT_CHANGE),
        };
        CommandAction::ReindexFile { workspace_id: workspace, path, change_type }
    } else if str_eq(kind.as_str(), CMD_SUBSCRIBE) && command.workspace_id.is_some() {
        CommandAction::Subscribe { workspace_id: workspace }
    } else if str_eq(kind.as_str(), CMD_UNSUBSCRIBE) && command.workspace_id.is_some() {
        CommandAction::Unsubscribe { workspace_id: workspace }
    } else if str_eq(kind.as_str(), CMD_TRIGGER_INDEX) && !workspace.as_str().is_empty() {
        CommandAction::TriggerIndex { workspace_id: workspace }
    } else {
        CommandAction::Ignore
    }
}

} // verus!

//! The per-call `_mcpmux_context` argument a Cursor `preToolUse` hook
//! attaches: validated here into the exact workspace of one tool call.

use vstd::prelude::*;
use crate::session_roots::SessionRootsRegistry;
use crate::text::{all_ws, chars_of, is_blank, string_of, trim, trim_ws};
use crate::workspace::{normalize_workspace_root, normalized_root};

verus! {

/// Reserved tool-argument key injected by the managed hook.
pub const MCPMUX_CONTEXT_KEY: &'static str = "_mcpmux_context";

/// What the validation reads of the removed `_mcpmux_context` value.
#[derive(Debug, Clone)]
pub struct RawCallContext {
    /// The value is a JSON object.
    pub is_object: bool,
    /// Its `workspace_root` member, when that is a string.
    pub workspace_root: Option<String>,
    /// Its `tool_use_id` member, when that is a string.
    pub tool_use_id: Option<String>,
}

/// Exact workspace identity carried on one `tools/call`.
#[derive(Debug, Clone)]
pub struct ExtractedCallContext {
    pub workspace_root: String,
    pub tool_use_id: Option<String>,
}

/// Why a `_mcpmux_context` was refused.
#[derive(Debug, Clone, Copy, PartialEq, Eq, Structural)]
pub enum CallContextError {
    /// The value is not an object.
    NotAnObject,
    /// `workspace_root` is missing, not a string, or blank.
    MissingRoot,
    /// `workspace_root` normalizes to nothing.
    EmptyAfterNormalize,
    /// `workspace_root` is not among the session's open folders.
    NotACandidate,
}

impl CallContextError {
    /// The message the call is refused with.
    pub fn message(&self) -> (r: &'static str)
        ensures
            r@ == match self {
                CallContextError::NotAnObject => "invalid _mcpmux_context: expected an object"@,
                CallContextError::MissingRoot => "invalid _mcpmux_context: workspace_root must be a non-empty string"@,
                CallContextError::EmptyAfterNormalize => "invalid _mcpmux_context: workspace_root is empty after normalize"@,
                CallContextError::NotACandidate => "invalid _mcpmux_context: workspace_root is not in this session's candidate set"@,
            },
    {
        match self {
            CallContextError::NotAnObject => "invalid _mcpmux_context: expected an object",
            CallContextError::MissingRoot => "invalid _mcpmux_context: workspace_root must be a non-empty string",
            CallContextError::EmptyAfterNormalize => "invalid _mcpmux_context: workspace_root is empty after normalize",
            CallContextError::NotACandidate => "invalid _mcpmux_context: workspace_root is not in this session's candidate set",
        }
    }
}

/// The trimmed text of an optional string member, when it is not blank.
pub open spec fn nonblank(o: Option<String>) -> Option<Seq<char>> {
    match o {
        Some(s) => if all_ws(s@) { None } else { Some(trim_ws(s@)) },
        None => None,
    }
}

/// The outcome of validating a present `_mcpmux_context`: the normalized
/// root and the trimmed tool-use id, or the first failing check.
pub open spec fn context_outcome(raw: RawCallContext, candidate: bool) -> Result<(Seq<char>, Option<Seq<char>>), CallContextError> {
    if !raw.is_object {
        Err(CallContextError::NotAnObject)
    } else {
        match nonblank(raw.workspace_root) {
            None => Err(CallContextError::MissingRoot),
            Some(root) => if normalized_root(root).len() == 0 {
                Err(CallContextError::EmptyAfterNormalize)
            } else if !candidate {
                Err(CallContextError::NotACandidate)
            } else {
                Ok((normalized_root(root), nonblank(raw.tool_use_id)))
            },
        }
    }
}

fn trimmed_nonblank(o: &Option<String>) -> (r: Option<String>)
    ensures
        match r {
            Some(s) => nonblank(*o) == Some(s@),
            None => nonblank(*o) is None,
        },
{
    match o {
        Some(s) => {
            let v = chars_of(s.as_str());
            if is_blank(&v) {
                None
            } else {
                Some(string_of(&trim(&v)))
            }
        },
        None => None,
    }
}

/// Validate the `_mcpmux_context` removed from a call's arguments (`None`
/// when the call carried none). For a session, the root must be one of the
/// folders its window has open.
pub fn take_mcpmux_context(
    raw: Option<&RawCallContext>,
    session_id: Option<&str>,
    session_roots: &SessionRootsRegistry,
) -> (r: Result<Option<ExtractedCallContext>, CallContextError>)
    ensures
        raw is None ==> r == Ok::<Option<ExtractedCallContext>, CallContextError>(None),
        raw matches Some(c) ==> ({
            let root = nonblank(c.workspace_root);
            let candidate = match (session_id, root) {
                (Some(sid), Some(rt)) => !session_roots.candidates().contains_key(sid@)
                    || session_roots.candidates()[sid@].contains(normalized_root(normalized_root(rt))),
                _ => true,
            };
            match context_outcome(*c, candidate) {
                Ok((w, t)) => r matches Ok(Some(x)) && x.workspace_root@ == w && match x.tool_use_id {
                    Some(id) => t == Some(id@),
                    None => t is None,
                },
                Err(e) => r == Err::<Option<ExtractedCallContext>, CallContextError>(e),
            }
        }),
{
    let c = match raw {
        None => return Ok(None),
        Some(c) => c,
    };
    if !c.is_object {
        return Err(CallContextError::NotAnObject);
    }
    let raw_root = match trimmed_nonblank(&c.workspace_root) {
        Some(t) => t,
        None => return Err(CallContextError::MissingRoot),
    };
    let workspace_root = normalize_workspace_root(raw_root.as_str());
    if workspace_root.as_str().is_empty() {
        return Err(CallContextError::EmptyAfterNormalize);
    }
    match session_id {
        Some(sid) => {
            if !session_roots.is_candidate(sid, workspace_root.as_str()) {
                return Err(CallContextError::NotACandidate);
            }
        },
        None => {},
    }
    let tool_use_id = trimmed_nonblank(&c.tool_use_id);
    Ok(Some(ExtractedCallContext { workspace_root, tool_use_id }))
}

} // verus!

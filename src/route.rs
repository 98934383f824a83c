use vstd::prelude::*;
use vstd::string::StringExecFns;

use crate::json::JsonValue;
use crate::keyed::KeyedList;
use crate::manager::ToolManager;
use crate::text::same_text;

verus! {

/// Separates a provider's name from its tool's name in a namespaced tool name.
pub const NAMESPACE_DELIMITER: &'static str = "___";

/// The remote protocol's method for invoking a named tool.
pub const CALL_METHOD: &'static str = "tools/call";

/// A request from the model to run a tool.
#[derive(Debug, PartialEq)]
pub struct ToolUse {
    pub id: String,
    pub name: String,
    pub args: JsonValue,
}

#[derive(Debug, PartialEq)]
pub enum ToolResultStatus {
    Success,
    Error,
}

#[derive(Debug, PartialEq)]
pub enum ToolResultContentBlock {
    Text(String),
}

/// What is sent back to the model in place of running a tool.
#[derive(Debug, PartialEq)]
pub struct ToolResult {
    pub tool_use_id: String,
    pub content: Vec<ToolResultContentBlock>,
    pub status: ToolResultStatus,
}

/// A call to a tool of a remote provider.
#[derive(Debug, PartialEq)]
pub struct CustomTool<'a, C> {
    pub name: String,
    pub client: &'a C,
    pub method: String,
    pub params: JsonValue,
}

/// A tool request routed to its handler: a built-in tool with the arguments
/// as given, to be read into that tool's parameters, or a remote call.
#[derive(Debug, PartialEq)]
pub enum Tool<'a, C> {
    Builtin(BuiltinKind, JsonValue),
    Custom(CustomTool<'a, C>),
}

#[derive(Clone, Copy, Debug, PartialEq, Eq, Structural)]
pub enum BuiltinKind {
    FsRead,
    FsWrite,
    ExecuteBash,
    UseAws,
    GhIssue,
}

/// The built-in tool reserved under a name.
pub open spec fn builtin_kind(name: Seq<char>) -> Option<BuiltinKind> {
    if name == "fs_read"@ {
        Some(BuiltinKind::FsRead)
    } else if name == "fs_write"@ {
        Some(BuiltinKind::FsWrite)
    } else if name == "execute_bash"@ {
        Some(BuiltinKind::ExecuteBash)
    } else if name == "use_aws"@ {
        Some(BuiltinKind::UseAws)
    } else if name == "report_issue"@ {
        Some(BuiltinKind::GhIssue)
    } else {
        None
    }
}

/// The text sent back when a built-in tool's arguments do not fit its
/// parameters; `reason` is what the reader of the parameters reported.
pub open spec fn invalid_params_message(reason: Seq<char>) -> Seq<char> {
    "Failed to validate tool parameters: "@ + reason
        + ". The model has either suggested tool parameters which are incompatible with the existing tools, or has suggested one or more tool that does not exist in the list of known tools."@
}

pub open spec fn malformed_name_message(name: Seq<char>) -> Seq<char> {
    "The tool, \""@ + name + "\" is supplied with incorrect name"@
}

pub open spec fn unsupported_message(provider: Seq<char>) -> Seq<char> {
    "The tool, \""@ + provider + "\" is not supported by the client"@
}

pub open spec fn delimiter_at(s: Seq<char>, i: int) -> bool {
    0 <= i && i + 3 <= s.len() && s.subrange(i, i + 3) == seq!['_', '_', '_']
}

/// Where the namespace delimiter first occurs in `s`.
pub open spec fn first_delimiter(s: Seq<char>) -> Option<int> {
    if exists|i: int| #[trigger] delimiter_at(s, i) {
        Some(choose|i: int| #[trigger] delimiter_at(s, i) && forall|j: int| 0 <= j < i ==> !delimiter_at(s, j))
    } else {
        None
    }
}

/// An error result for the request `id`, with one line of text.
pub open spec fn is_error_for(r: ToolResult, id: Seq<char>, text: Seq<char>) -> bool {
    &&& r.tool_use_id@ == id
    &&& r.status is Error
    &&& r.content@.len() == 1
    &&& r.content@[0] matches ToolResultContentBlock::Text(t) && t@ == text
}

/// The parameters of a remote tool call: `{ "name": tool, "arguments": args }`.
pub open spec fn is_call_envelope(params: JsonValue, tool: Seq<char>, args: JsonValue) -> bool {
    &&& params matches JsonValue::Object(entries)
    &&& entries@.len() == 2
    &&& entries@[0].0@ == "name"@
    &&& entries@[0].1 matches JsonValue::Str(t) && t@ == tool
    &&& entries@[1].0@ == "arguments"@
    &&& entries@[1].1 == args
}

/// What routing the request `(id, name, args)` gives against the providers `clients`.
pub open spec fn routed<'a, C>(
    clients: Map<Seq<char>, C>,
    id: Seq<char>,
    name: Seq<char>,
    args: JsonValue,
    r: Result<Tool<'a, C>, ToolResult>,
) -> bool {
    match builtin_kind(name) {
        Some(kind) => r == Ok::<Tool<'a, C>, ToolResult>(Tool::Builtin(kind, args)),
        None => match first_delimiter(name) {
            None => r is Err && is_error_for(r->Err_0, id, malformed_name_message(name)),
            Some(i) => {
                let provider = name.subrange(0, i);
                let tool = name.subrange(i + 3, name.len() as int);
                if !clients.contains_key(provider) {
                    r is Err && is_error_for(r->Err_0, id, unsupported_message(provider))
                } else {
                    &&& r matches Ok(Tool::Custom(ct))
                    &&& ct.name@ == tool
                    &&& *ct.client == clients[provider]
                    &&& ct.method@ == CALL_METHOD@
                    &&& is_call_envelope(ct.params, tool, args)
                }
            },
        },
    }
}

fn builtin_of(name: &str) -> (r: Option<BuiltinKind>)
    ensures
        r == builtin_kind(name@),
{
    if same_text(name, "fs_read") {
        Some(BuiltinKind::FsRead)
    } else if same_text(name, "fs_write") {
        Some(BuiltinKind::FsWrite)
    } else if same_text(name, "execute_bash") {
        Some(BuiltinKind::ExecuteBash)
    } else if same_text(name, "use_aws") {
        Some(BuiltinKind::UseAws)
    } else if same_text(name, "report_issue") {
        Some(BuiltinKind::GhIssue)
    } else {
        None
    }
}

fn find_delimiter(s: &str) -> (r: Option<usize>)
    ensures
        match r {
            Some(i) => first_delimiter(s@) == Some(i as int) && i + 3 <= s@.len(),
            None => first_delimiter(s@) is None,
        },
{
    let n = s.unicode_len();
    if n < 3 {
        assert forall|i: int| !#[trigger] delimiter_at(s@, i) by {}
        return None;
    }
    let mut i: usize = 0;
    while i < n - 2
        invariant
            n == s@.len(),
            n >= 3,
            i <= n - 2,
            forall|j: int| 0 <= j < i ==> !#[trigger] delimiter_at(s@, j),
        decreases n - i,
    {
        if s.get_char(i) == '_' && s.get_char(i + 1) == '_' && s.get_char(i + 2) == '_' {
            proof {
                assert(s@.subrange(i as int, i + 3) =~= seq!['_', '_', '_']);
                assert(delimiter_at(s@, i as int));
                assert(delimiter_at(s@, i as int) && forall|j: int| 0 <= j < i ==> !delimiter_at(s@, j));
                let w = choose|w: int| #[trigger] delimiter_at(s@, w) && forall|j: int| 0 <= j < w ==> !delimiter_at(s@, j);
                if w < i {
                    assert(!delimiter_at(s@, w));
                }
                if w > i {
                    assert(!delimiter_at(s@, i as int));
                }
            }
            return Some(i);
        }
        proof {
            if delimiter_at(s@, i as int) {
                assert(s@.subrange(i as int, i + 3)[0] == s@[i as int]);
                assert(s@.subrange(i as int, i + 3)[1] == s@[i + 1]);
                assert(s@.subrange(i as int, i + 3)[2] == s@[i + 2]);
            }
        }
        i = i + 1;
    }
    assert forall|j: int| !#[trigger] delimiter_at(s@, j) by {
        if 0 <= j && j >= i {
            assert(j + 3 > s@.len());
        }
    }
    None
}

/// The result sent back when a built-in tool's arguments could not be read
/// into its parameters, `reason` being what the reader reported.
pub fn invalid_params_result(id: String, reason: &str) -> (r: ToolResult)
    ensures
        is_error_for(r, id@, invalid_params_message(reason@)),
{
    let mut text = String::from_str("Failed to validate tool parameters: ");
    text.append(reason);
    text.append(
        ". The model has either suggested tool parameters which are incompatible with the existing tools, or has suggested one or more tool that does not exist in the list of known tools.",
    );
    error_result(id, text)
}

fn error_result(id: String, text: String) -> (r: ToolResult)
    ensures
        is_error_for(r, id@, text@),
{
    ToolResult {
        tool_use_id: id,
        content: vec![ToolResultContentBlock::Text(text)],
        status: ToolResultStatus::Error,
    }
}

impl<C> ToolManager<C> {
    /// Routes a tool request: a reserved built-in name gives that built-in
    /// tool with the arguments as given; any other name must read `{provider}___{tool}` with a started
    /// provider, and becomes a remote call `tools/call` with parameters
    /// `{ "name": tool, "arguments": args }`. Every failure is a result
    /// for the model, carrying the request's id. Reading a built-in tool's
    /// arguments into its parameters is left to the caller, which reports a
    /// failure with `invalid_params_result`.
    pub fn get_tool_from_tool_use<'a>(&'a self, value: ToolUse) -> (r: Result<Tool<'a, C>, ToolResult>)
        ensures
            routed(self.clients@, value.id@, value.name@, value.args, r),
    {
        let ToolUse { id, name, args } = value;
        match builtin_of(name.as_str()) {
            Some(kind) => Ok(Tool::Builtin(kind, args)),
            None => self.route_remote(id, name, args),
        }
    }

    fn route_remote<'a>(&'a self, id: String, name: String, args: JsonValue) -> (r: Result<
        Tool<'a, C>,
        ToolResult,
    >)
        ensures
            match first_delimiter(name@) {
                None => r is Err && is_error_for(r->Err_0, id@, malformed_name_message(name@)),
                Some(i) => {
                    let provider = name@.subrange(0, i);
                    let tool = name@.subrange(i + 3, name@.len() as int);
                    if !self.clients@.contains_key(provider) {
                        r is Err && is_error_for(r->Err_0, id@, unsupported_message(provider))
                    } else {
                        &&& r matches Ok(Tool::Custom(ct))
                        &&& ct.name@ == tool
                        &&& *ct.client == self.clients@[provider]
                        &&& ct.method@ == CALL_METHOD@
                        &&& is_call_envelope(ct.params, tool, args)
                    }
                },
            },
    {
        let at = match find_delimiter(name.as_str()) {
            Some(at) => at,
            None => {
                let mut text = String::from_str("The tool, \"");
                text.append(name.as_str());
                text.append("\" is supplied with incorrect name");
                return Err(error_result(id, text));
            },
        };
        let n = name.as_str().unicode_len();
        let provider = name.as_str().substring_char(0, at);
        let tool = name.as_str().substring_char(at + 3, n);
        match self.clients.get(provider) {
            None => {
                let mut text = String::from_str("The tool, \"");
                text.append(provider);
                text.append("\" is not supported by the client");
                Err(error_result(id, text))
            },
            Some(client) => {
                let params = JsonValue::Object(
                    vec![
                        (String::from_str("name"), JsonValue::Str(String::from_str(tool))),
                        (String::from_str("arguments"), args),
                    ],
                );
                Ok(
                    Tool::Custom(
                        CustomTool { name: String::from_str(tool), client, method: String::from_str(CALL_METHOD), params },
                    ),
                )
            },
        }
    }
}

} // verus!

use tool_manager::json::JsonValue;
use tool_manager::keyed::KeyedList;
use tool_manager::manager::ToolManager;
use tool_manager::progress::{LoadingDisplay, Slot};
use tool_manager::registry::ToolSpec;
use tool_manager::route::{
    invalid_params_result, BuiltinKind, CustomTool, Tool, ToolResult, ToolResultContentBlock, ToolResultStatus, ToolUse,
};

fn text(s: &str) -> JsonValue {
    JsonValue::Str(s.to_string())
}

fn object(fields: &[(&str, &str)]) -> JsonValue {
    JsonValue::Object(fields.iter().map(|(k, v)| (k.to_string(), text(v))).collect())
}

fn manager_with(names: &[&str]) -> ToolManager<String> {
    let results: Vec<(String, Result<String, ()>)> =
        names.iter().map(|n| (n.to_string(), Ok(format!("client of {n}")))).collect();
    ToolManager::from_configs(results).0
}

fn use_of(id: &str, name: &str, args: JsonValue) -> ToolUse {
    ToolUse { id: id.to_string(), name: name.to_string(), args }
}

fn error_text(r: &ToolResult) -> &str {
    assert_eq!(r.status, ToolResultStatus::Error);
    assert_eq!(r.content.len(), 1);
    let ToolResultContentBlock::Text(t) = &r.content[0];
    t
}

const HINT: &str = ". The model has either suggested tool parameters which are incompatible with the existing tools, or has suggested one or more tool that does not exist in the list of known tools.";

#[test]
fn builtin_names_route_to_their_tool_with_arguments_as_given() {
    let m = manager_with(&["weather"]);
    let args = object(&[("mode", "Line"), ("path", "/tmp/a")]);
    let r = m.get_tool_from_tool_use(use_of("id1", "fs_read", args));
    assert_eq!(r, Ok(Tool::Builtin(BuiltinKind::FsRead, object(&[("mode", "Line"), ("path", "/tmp/a")]))));
    let r = m.get_tool_from_tool_use(use_of("id2", "execute_bash", object(&[("command", "ls")])));
    assert_eq!(r, Ok(Tool::Builtin(BuiltinKind::ExecuteBash, object(&[("command", "ls")]))));
    let r = m.get_tool_from_tool_use(use_of("id3", "fs_write", JsonValue::Null));
    assert_eq!(r, Ok(Tool::Builtin(BuiltinKind::FsWrite, JsonValue::Null)));
    let r = m.get_tool_from_tool_use(use_of("id4", "use_aws", object(&[])));
    assert_eq!(r, Ok(Tool::Builtin(BuiltinKind::UseAws, object(&[]))));
    let r = m.get_tool_from_tool_use(use_of("id5", "report_issue", object(&[("title", "t")])));
    assert_eq!(r, Ok(Tool::Builtin(BuiltinKind::GhIssue, object(&[("title", "t")]))));
}

#[test]
fn invalid_params_result_keeps_id_and_reason() {
    let err = invalid_params_result("call-7".to_string(), "missing field `path`");
    assert_eq!(err.tool_use_id, "call-7");
    assert_eq!(error_text(&err), format!("Failed to validate tool parameters: missing field `path`{HINT}"));
}

#[test]
fn builtin_name_match_is_exact() {
    let m = manager_with(&[]);
    let err = m.get_tool_from_tool_use(use_of("c", "fs_read2", JsonValue::Null)).unwrap_err();
    assert_eq!(error_text(&err), "The tool, \"fs_read2\" is supplied with incorrect name");
}

#[test]
fn namespaced_tool_becomes_remote_call() {
    let m = manager_with(&["weather"]);
    let args = object(&[("city", "Paris")]);
    let r = m.get_tool_from_tool_use(use_of("w1", "weather___get_forecast", args));
    let client = "client of weather".to_string();
    let expected = Tool::Custom(CustomTool {
        name: "get_forecast".to_string(),
        client: &client,
        method: "tools/call".to_string(),
        params: JsonValue::Object(vec![
            ("name".to_string(), text("get_forecast")),
            ("arguments".to_string(), object(&[("city", "Paris")])),
        ]),
    });
    assert_eq!(r, Ok(expected));
}

#[test]
fn split_is_at_first_delimiter() {
    let m = manager_with(&["srv"]);
    let r = m.get_tool_from_tool_use(use_of("i", "srv___a___b", JsonValue::Null));
    match r {
        Ok(Tool::Custom(ct)) => {
            assert_eq!(ct.name, "a___b");
            assert_eq!(ct.client, "client of srv");
        },
        other => panic!("unexpected {other:?}"),
    }
}

#[test]
fn unknown_provider_is_unsupported() {
    let m = manager_with(&["weather"]);
    let err = m.get_tool_from_tool_use(use_of("u", "unknown_provider___x", object(&[]))).unwrap_err();
    assert_eq!(err.tool_use_id, "u");
    assert_eq!(error_text(&err), "The tool, \"unknown_provider\" is not supported by the client");
}

#[test]
fn name_without_delimiter_is_malformed() {
    let m = manager_with(&["weather"]);
    let err = m.get_tool_from_tool_use(use_of("m", "weather__x", object(&[]))).unwrap_err();
    assert_eq!(err.tool_use_id, "m");
    assert_eq!(error_text(&err), "The tool, \"weather__x\" is supplied with incorrect name");
}

fn spec(name: &str) -> ToolSpec {
    ToolSpec { name: name.to_string(), description: format!("does {name}"), input_schema: JsonValue::Null }
}

#[test]
fn aggregated_tools_keep_builtins_and_namespace_remote_ones() {
    let mut builtin = KeyedList::new();
    builtin.insert("fs_read".to_string(), spec("fs_read"));
    builtin.insert("execute_bash".to_string(), spec("execute_bash"));
    let fetched: Vec<(String, Result<Vec<ToolSpec>, String>)> = vec![
        ("weather".to_string(), Ok(vec![spec("get_forecast"), spec("get_alerts")])),
        ("broken".to_string(), Err("no answer".to_string())),
        ("git".to_string(), Ok(vec![spec("status")])),
    ];
    let (tools, failed) = ToolManager::<String>::load_tools(builtin, fetched);
    assert_eq!(tools.entries().len(), 5);
    assert_eq!(tools.get("fs_read"), Some(&spec("fs_read")));
    assert!(tools.contains_key("execute_bash"));
    let f = tools.get("weather___get_forecast").unwrap();
    assert_eq!(f.name, "weather___get_forecast");
    assert_eq!(f.description, "does get_forecast");
    assert!(tools.contains_key("weather___get_alerts"));
    assert!(tools.contains_key("git___status"));
    assert!(!tools.contains_key("get_forecast"));
    assert_eq!(failed, vec![("broken".to_string(), "no answer".to_string())]);
}

#[test]
fn later_tool_with_same_full_name_wins() {
    let builtin = KeyedList::new();
    let mut second = spec("t");
    second.description = "second".to_string();
    let fetched: Vec<(String, Result<Vec<ToolSpec>, String>)> =
        vec![("p".to_string(), Ok(vec![spec("t")])), ("p".to_string(), Ok(vec![second]))];
    let (tools, _) = ToolManager::<String>::load_tools(builtin, fetched);
    assert_eq!(tools.entries().len(), 1);
    assert_eq!(tools.get("p___t").unwrap().description, "second");
}

#[test]
fn display_tracks_rows_and_spinner_frames() {
    let mut d = LoadingDisplay::new();
    d.on_add("a".to_string());
    d.on_add("b".to_string());
    assert_eq!(d.next_row, 2);
    assert_eq!(d.lines.get("a"), Some(&Slot { row: 0, frame: 0, done: false }));
    let redraw = d.on_tick();
    assert_eq!(redraw.get("a"), Some(&(2, 1)));
    assert_eq!(redraw.get("b"), Some(&(1, 1)));
    assert_eq!(d.on_remove("a"), Some(2));
    assert_eq!(d.on_remove("missing"), None);
    let redraw = d.on_tick();
    assert_eq!(redraw.get("a"), None);
    assert_eq!(redraw.get("b"), Some(&(1, 2)));
    for _ in 0..8 {
        d.on_tick();
    }
    assert_eq!(d.lines.get("b").unwrap().frame, 0);
    assert_eq!(d.lines.get("a"), Some(&Slot { row: 0, frame: 1, done: true }));
}

use herdr_copy_search::herdr::{json_str_field, resolve_source_pane};

const CTX: &str = "{\"workspace_id\":\"w8\",\"tab_id\":\"w8:t1\",\"focused_pane_id\":\"w8:p1\",\"focused_pane_cwd\":\"/home/x\",\"invocation_source\":\"api\"}";

#[test]
fn json_str_field_extracts_flat_fields() {
    assert_eq!(json_str_field(CTX, "focused_pane_id").as_deref(), Some("w8:p1"));
    assert_eq!(json_str_field(CTX, "workspace_id").as_deref(), Some("w8"));
    assert_eq!(json_str_field(CTX, "missing"), None);
}

#[test]
fn json_str_field_allows_spacing() {
    let json = "{ \"focused_pane_id\" : \"w1:p2\" }";
    assert_eq!(json_str_field(json, "focused_pane_id").as_deref(), Some("w1:p2"));
}

#[test]
fn cli_pane_wins_over_env() {
    let env = |_: &str| Some("env-pane".to_string());
    assert_eq!(resolve_source_pane(Some("cli-pane"), env).as_deref(), Some("cli-pane"));
}

#[test]
fn active_pane_id_wins_over_context_json() {
    let env = |k: &str| match k {
        "HERDR_ACTIVE_PANE_ID" => Some("w8:pA".to_string()),
        "HERDR_PLUGIN_CONTEXT_JSON" => Some(CTX.to_string()),
        _ => None,
    };
    assert_eq!(resolve_source_pane(None, env).as_deref(), Some("w8:pA"));
}

#[test]
fn context_json_is_the_fallback() {
    let env = |k: &str| match k {
        "HERDR_PLUGIN_CONTEXT_JSON" => Some(CTX.to_string()),
        _ => None,
    };
    assert_eq!(resolve_source_pane(None, env).as_deref(), Some("w8:p1"));
}

#[test]
fn no_sources_resolves_to_none() {
    assert_eq!(resolve_source_pane(None, |_: &str| None), None);
}

#[test]
fn json_field_needs_colon_and_quoted_value() {
    assert_eq!(json_str_field("{\"a\" 1}", "a"), None);
    assert_eq!(json_str_field("{\"a\": 1}", "a"), None);
    assert_eq!(json_str_field("{\"a\": \"open", "a"), None);
    assert_eq!(json_str_field("{\"a\":\"\"}", "a").as_deref(), Some(""));
}

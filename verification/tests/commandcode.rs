use lean_ctx::commandcode::{
    merge_config, plan_write, repair_commandcode_config, write_commandcode_config_with_rule_steering,
    write_commandcode_fresh, ConfigWrite, RuleSteering, WriteAction, WriteOptions,
};
use lean_ctx::jsonc::{parse_jsonc, strip_comments};
use serde_json::Value;

const SHIPPED: &str = "Prefer the ctx tools.";
const OPTS: WriteOptions = WriteOptions {
    overwrite_invalid: false,
};

fn steering(allow: bool, rules_off: bool) -> RuleSteering {
    RuleSteering {
        allow,
        rules_off,
        instructions: SHIPPED.to_string(),
    }
}

fn json(text: &str) -> Value {
    serde_json::from_str(text).expect("JSON")
}

fn plan(content: Option<&str>, s: &RuleSteering) -> Result<ConfigWrite, String> {
    write_commandcode_config_with_rule_steering(content, "/bin/lean-ctx", OPTS, s)
}

fn written(content: Option<&str>, s: &RuleSteering) -> (String, WriteAction) {
    match plan(content, s).expect("a plan") {
        ConfigWrite::Write { content, result } => {
            assert_eq!(result.note, None);
            (content, result.action)
        }
        other => panic!("expected a write, got {other:?}"),
    }
}

fn with_steering(text: &str) -> String {
    format!(
        "{{\"mcpServers\":{{\"lean-ctx\":{{\"transport\":\"stdio\",\"enabled\":true,\
         \"command\":\"/old\",\"instructions\":{text}}}}}}}"
    )
}

fn steering_in(text: &str) -> Option<Value> {
    json(text)["mcpServers"]["lean-ctx"].get("instructions").cloned()
}

#[test]
fn a_new_file_holds_the_entry_and_nothing_else() {
    let (content, action) = written(None, &steering(true, false));
    assert_eq!(action, WriteAction::Created);
    assert_eq!(
        content,
        "{\n  \"mcpServers\": {\n    \"lean-ctx\": {\n      \"command\": \"/bin/lean-ctx\",\n      \
         \"enabled\": true,\n      \"instructions\": \"Prefer the ctx tools.\",\n      \
         \"transport\": \"stdio\"\n    }\n  }\n}"
    );
    let (content, _) = written(None, &steering(false, false));
    assert_eq!(
        json(&content),
        json("{\"mcpServers\":{\"lean-ctx\":{\"transport\":\"stdio\",\"enabled\":true,\"command\":\"/bin/lean-ctx\"}}}")
    );
}

#[test]
fn a_note_makes_a_new_file_an_update() {
    let entry = json("{\"command\":\"x\"}");
    match write_commandcode_fresh(&entry, Some("overwrote".to_string())).expect("a plan") {
        ConfigWrite::Write { content, result } => {
            assert_eq!(result.action, WriteAction::Updated);
            assert_eq!(result.note.as_deref(), Some("overwrote"));
            assert_eq!(json(&content)["mcpServers"]["lean-ctx"], entry);
        }
        other => panic!("expected a write, got {other:?}"),
    }
}

#[test]
fn writing_twice_changes_nothing() {
    for s in [
        steering(true, false),
        steering(true, true),
        steering(false, false),
        steering(false, true),
    ] {
        for before in [
            None,
            Some("{}".to_string()),
            Some("{\"theme\":\"dark\",\"mcpServers\":{\"other\":{\"a\":[1,2.5,null]}}}".to_string()),
            Some(with_steering("\"mine\"")),
            Some(with_steering("-0.0")),
            Some(with_steering("\"lean-ctx shadow mode: on\"")),
        ] {
            let (content, _) = written(before.as_deref(), &s);
            match plan(Some(&content), &s).expect("a plan") {
                ConfigWrite::Unchanged { result } => {
                    assert_eq!(result.action, WriteAction::Already);
                    assert_eq!(result.note, None);
                }
                other => panic!("expected no write, got {other:?}"),
            }
        }
    }
}

#[test]
fn everything_else_in_the_file_stays() {
    let before = "{ // settings\n \"theme\": \"dark\", /* more */ \"mcpServers\": {\"other\": {\"url\": \"http://x//y\"}}}";
    let (content, action) = written(Some(before), &steering(true, false));
    assert_eq!(action, WriteAction::Updated);
    let after = json(&content);
    assert_eq!(after["theme"], json("\"dark\""));
    assert_eq!(after["mcpServers"]["other"]["url"], json("\"http://x//y\""));
    assert_eq!(after["mcpServers"]["lean-ctx"]["command"], json("\"/bin/lean-ctx\""));
}

#[test]
fn an_opt_out_keeps_standing_steering() {
    for text in ["\"mine\"", "\"Prefer the ctx tools.\"", "\"lean-ctx shadow mode: on\"", "7", "null"] {
        let (content, _) = written(Some(&with_steering(text)), &steering(false, false));
        assert_eq!(steering_in(&content), Some(json(text)), "{text}");
    }
    let (content, _) = written(Some("{}"), &steering(false, false));
    assert_eq!(steering_in(&content), None);
}

#[test]
fn rules_off_removes_shipped_steering_only() {
    for text in ["\"Prefer the ctx tools.\"", "\"lean-ctx shadow mode: on\""] {
        let (content, _) = written(Some(&with_steering(text)), &steering(false, true));
        assert_eq!(steering_in(&content), None, "{text}");
    }
    for text in ["\"mine\"", "\" lean-ctx shadow mode: on\"", "7", "[\"Prefer the ctx tools.\"]"] {
        let (content, _) = written(Some(&with_steering(text)), &steering(false, true));
        assert_eq!(steering_in(&content), Some(json(text)), "{text}");
    }
}

#[test]
fn allowed_steering_is_refreshed() {
    let (content, _) = written(Some(&with_steering("\"mine\"")), &steering(true, false));
    assert_eq!(steering_in(&content), Some(Value::from(SHIPPED)));
}

#[test]
fn a_file_without_a_place_for_the_entry_is_refused() {
    let s = steering(true, false);
    assert_eq!(plan(Some("[1]"), &s).expect_err("no object"), "root JSON must be an object");
    assert_eq!(
        plan(Some("{\"mcpServers\": 3}"), &s).expect_err("no object"),
        "\"mcpServers\" must be an object"
    );
}

#[test]
fn an_invalid_file_is_handed_on() {
    let s = steering(true, false);
    for overwrite in [true, false] {
        let opts = WriteOptions {
            overwrite_invalid: overwrite,
        };
        match write_commandcode_config_with_rule_steering(Some("{oops"), "b", opts, &s) {
            Ok(ConfigWrite::Repair {
                desired,
                overwrite_invalid,
            }) => {
                assert_eq!(overwrite_invalid, overwrite);
                assert_eq!(desired["command"], json("\"b\""));
                assert_eq!(desired["enabled"], json("true"));
                assert_eq!(desired["instructions"], Value::from(SHIPPED));
            }
            other => panic!("expected a repair, got {other:?}"),
        }
    }
}

#[test]
fn an_entry_of_another_shape_is_replaced() {
    let merged = merge_config(
        json("{\"mcpServers\":{\"lean-ctx\":\"?\"}}"),
        "b",
        &steering(false, false),
    )
    .expect("a place for it")
    .expect("a change");
    assert_eq!(
        merged["mcpServers"]["lean-ctx"],
        json("{\"transport\":\"stdio\",\"enabled\":true,\"command\":\"b\"}")
    );
    let same = merge_config(merged, "b", &steering(false, false)).expect("a place for it");
    assert!(same.is_none());
}

#[test]
fn a_message_in_place_of_the_text_is_passed_on() {
    assert_eq!(
        plan_write(Err("no".to_string()), WriteAction::Updated, None).expect_err("a message"),
        "no"
    );
}

#[test]
fn comments_are_stripped_outside_of_quotes() {
    assert_eq!(strip_comments("a // b\nc"), "a \nc");
    assert_eq!(strip_comments("1/*x*/2"), "1 2");
    assert_eq!(strip_comments("\"// \\\" /*\" // end"), "\"// \\\" /*\" ");
    assert_eq!(strip_comments("a / b /"), "a / b /");
    assert_eq!(strip_comments("a /* open"), "a  ");
    assert_eq!(parse_jsonc("{\"a\": 1 /* one */}"), Some(json("{\"a\": 1}")));
    assert_eq!(parse_jsonc("{\"a\": }"), None);
}

#[test]
fn an_invalid_file_is_replaced_only_on_request() {
    let entry = json("{\"command\":\"x\"}");
    assert_eq!(
        repair_commandcode_config(&entry, false).expect_err("not asked for"),
        "the file is no JSON"
    );
    match repair_commandcode_config(&entry, true).expect("a plan") {
        ConfigWrite::Write { content, result } => {
            assert_eq!(result.action, WriteAction::Updated);
            assert_eq!(result.note.as_deref(), Some("replaced a file that is no JSON"));
            assert_eq!(json(&content)["mcpServers"]["lean-ctx"], entry);
        }
        other => panic!("expected a write, got {other:?}"),
    }
}

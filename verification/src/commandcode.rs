//! The `lean-ctx` entry in the MCP configuration of Command Code.
//!
//! Command Code keeps model steering inside the MCP server entry itself, so an
//! installation may have to configure the server without creating or refreshing
//! that steering. The functions here decide what becomes of the file; reading
//! and writing it is the caller's part.

use crate::json::{
    Json, as_object_mut, as_text, bool_value, clone_value, entry_or_insert, field,
    get_field, json_equality_is_reflexive, json_of, lookup, new_map, no_entries, object_value,
    parsed, pretty, pretty_text, put, same_json, text_value, values_equal,
};
use crate::jsonc::{parse_jsonc, without_comments};
use crate::text::{opt_text, same_text, starts_with_text};
use serde_json::Value;
use vstd::prelude::*;

verus! {

/// The key of the configuration file under which the servers stand.
pub const SERVERS_KEY: &'static str = "mcpServers";

/// The key of this server among the servers.
pub const ENTRY_KEY: &'static str = "lean-ctx";

/// What was done to a configuration file.
#[derive(Debug, Clone, Copy, PartialEq, Eq, Structural)]
pub enum WriteAction {
    Created,
    Updated,
    Already,
}

/// The report on one configuration file.
#[derive(Debug)]
pub struct WriteResult {
    pub action: WriteAction,
    pub note: Option<String>,
}

/// How the caller wants files to be treated.
#[derive(Debug, Clone, Copy)]
pub struct WriteOptions {
    pub overwrite_invalid: bool,
}

/// What the user settings say about steering the model.
#[derive(Debug)]
pub struct RuleSteering {
    /// Steering may be created and refreshed.
    pub allow: bool,
    /// The setting `rules_injection` is off: steering that was shipped is to go.
    pub rules_off: bool,
    /// The steering text that is shipped.
    pub instructions: String,
}

/// What is to be done to a configuration file.
#[derive(Debug)]
pub enum ConfigWrite {
    /// The file stays as it is.
    Unchanged { result: WriteResult },
    /// The file gets this content.
    Write { content: String, result: WriteResult },
    /// The file is no JSON. This entry is what it should hold.
    Repair { desired: Value, overwrite_invalid: bool },
}

/// What a [`ConfigWrite`] says.
pub enum Plan {
    Unchanged { action: WriteAction, note: Option<Seq<char>> },
    Write { content: Seq<char>, action: WriteAction, note: Option<Seq<char>> },
    Repair { desired: Json, overwrite_invalid: bool },
}

impl View for ConfigWrite {
    type V = Plan;

    open spec fn view(&self) -> Plan {
        match *self {
            ConfigWrite::Unchanged { result } => Plan::Unchanged {
                action: result.action,
                note: opt_text(result.note),
            },
            ConfigWrite::Write { content, result } => Plan::Write {
                content: content@,
                action: result.action,
                note: opt_text(result.note),
            },
            ConfigWrite::Repair { desired, overwrite_invalid } => Plan::Repair {
                desired: json_of(desired),
                overwrite_invalid,
            },
        }
    }
}

/// What a result holds, whichever it is.
pub open spec fn outcome(r: Result<ConfigWrite, String>) -> Result<Plan, Seq<char>> {
    match r {
        Ok(w) => Ok(w@),
        Err(e) => Err(e@),
    }
}

/// The server entry: how to start the server, and the steering where there is any.
pub open spec fn entry_json(binary: Seq<char>, instructions: Option<Json>) -> Json {
    let start = no_entries().insert("transport"@, Json::Text("stdio"@)).insert(
        "enabled"@,
        Json::Bool(true),
    ).insert("command"@, Json::Text(binary));
    Json::Object(
        match instructions {
            Some(i) => start.insert("instructions"@, i),
            None => start,
        },
    )
}

/// Steering that this program wrote: the shipped text, or an earlier form of it.
pub open spec fn is_shipped(instructions: Json, shipped: Seq<char>) -> bool {
    match instructions {
        Json::Text(t) => t == shipped || "lean-ctx shadow mode:"@.is_prefix_of(t),
        _ => false,
    }
}

/// The steering that the entry is to have, given the entry that stands there.
/// Where steering may be created it is the shipped text. Otherwise what stands
/// there is kept, unless rules are off and it was shipped.
pub open spec fn steering_for(existing: Option<Json>, s: RuleSteering) -> Option<Json> {
    if s.allow {
        Some(Json::Text(s.instructions@))
    } else {
        let standing = match existing {
            Some(e) => field(e, "instructions"@),
            None => None,
        };
        match standing {
            Some(i) => if s.rules_off && is_shipped(i, s.instructions@) {
                None
            } else {
                Some(i)
            },
            None => None,
        }
    }
}

/// The servers of a configuration; an empty object where it has none.
pub open spec fn servers_of(top: Map<Seq<char>, Json>) -> Json {
    if top.dom().contains(SERVERS_KEY@) {
        top[SERVERS_KEY@]
    } else {
        Json::Object(no_entries())
    }
}

/// The configuration with the entry in it: nothing where the entry stands there
/// already, a message where there is no place for it.
pub open spec fn merged(root: Json, binary: Seq<char>, s: RuleSteering) -> Result<
    Option<Json>,
    Seq<char>,
> {
    match root {
        Json::Object(top) => match servers_of(top) {
            Json::Object(servers) => {
                let existing = field(Json::Object(servers), ENTRY_KEY@);
                let desired = entry_json(binary, steering_for(existing, s));
                if existing is Some && same_json(existing->0, desired) {
                    Ok(None)
                } else {
                    Ok(
                        Some(
                            Json::Object(
                                top.insert(
                                    SERVERS_KEY@,
                                    Json::Object(servers.insert(ENTRY_KEY@, desired)),
                                ),
                            ),
                        ),
                    )
                }
            },
            _ => Err("\"mcpServers\" must be an object"@),
        },
        _ => Err("root JSON must be an object"@),
    }
}

/// The configuration that holds the entry and nothing else.
pub open spec fn fresh_config(desired: Json) -> Json {
    Json::Object(
        no_entries().insert(
            SERVERS_KEY@,
            Json::Object(no_entries().insert(ENTRY_KEY@, desired)),
        ),
    )
}

/// What to do with the text of a configuration, or with the message in its place.
pub open spec fn write_plan(
    text: Result<Seq<char>, Seq<char>>,
    action: WriteAction,
    note: Option<Seq<char>>,
) -> Result<Plan, Seq<char>> {
    match text {
        Ok(content) => Ok(Plan::Write { content, action, note }),
        Err(message) => Err(message),
    }
}

/// The plan for a new file. With a note it replaces a file that was there.
pub open spec fn fresh_plan(desired: Json, note: Option<Seq<char>>) -> Result<Plan, Seq<char>> {
    write_plan(
        pretty(fresh_config(desired)),
        if note is Some {
            WriteAction::Updated
        } else {
            WriteAction::Created
        },
        note,
    )
}

/// The plan for a file that was read as `root`.
pub open spec fn update_plan(root: Json, binary: Seq<char>, s: RuleSteering) -> Result<
    Plan,
    Seq<char>,
> {
    match merged(root, binary, s) {
        Ok(Some(json)) => write_plan(pretty(json), WriteAction::Updated, None),
        Ok(None) => Ok(Plan::Unchanged { action: WriteAction::Already, note: None }),
        Err(message) => Err(message),
    }
}

/// The plan for a file with this content, or for one that does not exist.
pub open spec fn config_plan(
    content: Option<Seq<char>>,
    binary: Seq<char>,
    opts: WriteOptions,
    s: RuleSteering,
) -> Result<Plan, Seq<char>> {
    let desired = entry_json(binary, steering_for(None, s));
    match content {
        None => fresh_plan(desired, None),
        Some(text) => match parsed(without_comments(text)) {
            None => Ok(Plan::Repair { desired, overwrite_invalid: opts.overwrite_invalid }),
            Some(root) => update_plan(root, binary, s),
        },
    }
}

/// The server entry with the given steering.
fn build_entry(binary: &str, instructions: Option<Value>) -> (r: Value)
    ensures
        json_of(r) == entry_json(
            binary@,
            match instructions {
                Some(v) => Some(json_of(v)),
                None => None,
            },
        ),
{
    let mut m = new_map();
    put(&mut m, "transport".to_owned(), text_value("stdio".to_owned()));
    put(&mut m, "enabled".to_owned(), bool_value(true));
    put(&mut m, "command".to_owned(), text_value(binary.to_owned()));
    if let Some(v) = instructions {
        put(&mut m, "instructions".to_owned(), v);
    }
    object_value(m)
}

/// Whether steering is the shipped text or an earlier form of it.
fn shipped(instructions: &Value, text: &str) -> (r: bool)
    ensures
        r == is_shipped(json_of(*instructions), text@),
{
    match as_text(instructions) {
        Some(t) => same_text(t, text) || starts_with_text(t, "lean-ctx shadow mode:"),
        None => false,
    }
}

/// The steering that the entry is to have, given the entry that stands there.
fn choose_steering(existing: Option<&Value>, steering: &RuleSteering) -> (r: Option<Value>)
    ensures
        match r {
            Some(v) => steering_for(
                match existing {
                    Some(e) => Some(json_of(*e)),
                    None => None,
                },
                *steering,
            ) == Some(json_of(v)),
            None => steering_for(
                match existing {
                    Some(e) => Some(json_of(*e)),
                    None => None,
                },
                *steering,
            ) is None,
        },
{
    if steering.allow {
        return Some(text_value(steering.instructions.clone()));
    }
    match existing {
        Some(e) => match get_field(e, "instructions") {
            Some(i) => {
                if steering.rules_off && shipped(i, steering.instructions.as_str()) {
                    None
                } else {
                    Some(clone_value(i))
                }
            },
            None => None,
        },
        None => None,
    }
}

/// Puts the entry into a configuration. The result is nothing where the entry
/// stands there already, and a message where there is no place for it.
pub fn merge_config(root: Value, binary: &str, steering: &RuleSteering) -> (r: Result<
    Option<Value>,
    String,
>)
    ensures
        match r {
            Ok(Some(v)) => merged(json_of(root), binary@, *steering) == Ok::<
                Option<Json>,
                Seq<char>,
            >(Some(json_of(v))),
            Ok(None) => merged(json_of(root), binary@, *steering) == Ok::<Option<Json>, Seq<char>>(
                None,
            ),
            Err(e) => merged(json_of(root), binary@, *steering) == Err::<Option<Json>, Seq<char>>(
                e@,
            ),
        },
{
    let mut json = root;
    match as_object_mut(&mut json) {
        None => Err("root JSON must be an object".to_owned()),
        Some(top) => {
            let servers = entry_or_insert(top, SERVERS_KEY, object_value(new_map()));
            match as_object_mut(servers) {
                None => Err("\"mcpServers\" must be an object".to_owned()),
                Some(entries) => {
                    let existing = lookup(entries, ENTRY_KEY);
                    let desired = build_entry(binary, choose_steering(existing, steering));
                    if let Some(e) = existing {
                        if values_equal(e, &desired) {
                            return Ok(None);
                        }
                    }
                    put(entries, ENTRY_KEY.to_owned(), desired);
                    Ok(Some(json))
                },
            }
        },
    }
}

/// What to do with the text of a configuration, or with the message in its place.
pub fn plan_write(text: Result<String, String>, action: WriteAction, note: Option<String>) -> (r:
    Result<ConfigWrite, String>)
    ensures
        outcome(r) == write_plan(
            match text {
                Ok(t) => Ok(t@),
                Err(e) => Err(e@),
            },
            action,
            opt_text(note),
        ),
{
    match text {
        Ok(content) => Ok(ConfigWrite::Write { content, result: WriteResult { action, note } }),
        Err(message) => Err(message),
    }
}

/// The new file that holds the entry and nothing else.
pub fn write_commandcode_fresh(desired: &Value, note: Option<String>) -> (r: Result<
    ConfigWrite,
    String,
>)
    ensures
        outcome(r) == fresh_plan(json_of(*desired), opt_text(note)),
{
    let mut servers = new_map();
    put(&mut servers, ENTRY_KEY.to_owned(), clone_value(desired));
    let mut top = new_map();
    put(&mut top, SERVERS_KEY.to_owned(), object_value(servers));
    let action = if note.is_some() {
        WriteAction::Updated
    } else {
        WriteAction::Created
    };
    plan_write(pretty_text(&object_value(top)), action, note)
}

/// Decides what becomes of the configuration file, whose content is `content`
/// where it exists.
pub fn write_commandcode_config_with_rule_steering(
    content: Option<&str>,
    binary: &str,
    opts: WriteOptions,
    steering: &RuleSteering,
) -> (r: Result<ConfigWrite, String>)
    ensures
        outcome(r) == config_plan(
            match content {
                Some(t) => Some(t@),
                None => None,
            },
            binary@,
            opts,
            *steering,
        ),
{
    let desired = build_entry(binary, choose_steering(None, steering));
    match content {
        None => write_commandcode_fresh(&desired, None),
        Some(text) => match parse_jsonc(text) {
            None => Ok(
                ConfigWrite::Repair { desired, overwrite_invalid: opts.overwrite_invalid },
            ),
            Some(root) => match merge_config(root, binary, steering) {
                Ok(Some(json)) => plan_write(pretty_text(&json), WriteAction::Updated, None),
                Ok(None) => Ok(
                    ConfigWrite::Unchanged {
                        result: WriteResult { action: WriteAction::Already, note: None },
                    },
                ),
                Err(message) => Err(message),
            },
        },
    }
}

/// The plan for a file that is no JSON: it is replaced where the caller wants
/// that, and the report says so.
pub open spec fn repair_plan(desired: Json, overwrite_invalid: bool) -> Result<Plan, Seq<char>> {
    if overwrite_invalid {
        fresh_plan(desired, Some("replaced a file that is no JSON"@))
    } else {
        Err("the file is no JSON"@)
    }
}

/// Decides what becomes of a file that is no JSON.
pub fn repair_commandcode_config(desired: &Value, overwrite_invalid: bool) -> (r: Result<
    ConfigWrite,
    String,
>)
    ensures
        outcome(r) == repair_plan(json_of(*desired), overwrite_invalid),
{
    if overwrite_invalid {
        write_commandcode_fresh(desired, Some("replaced a file that is no JSON".to_owned()))
    } else {
        Err("the file is no JSON".to_owned())
    }
}

/// The entry of a configuration, where it has one.
pub open spec fn entry_of(root: Json) -> Option<Json> {
    match field(root, SERVERS_KEY@) {
        Some(servers) => field(servers, ENTRY_KEY@),
        None => None,
    }
}

/// The steering of a configuration's entry, where it has any.
pub open spec fn steering_of(root: Json) -> Option<Json> {
    match entry_of(root) {
        Some(e) => field(e, "instructions"@),
        None => None,
    }
}

/// The configuration as it is once the plan for it has been carried out.
pub open spec fn settled(root: Json, binary: Seq<char>, s: RuleSteering) -> Json {
    match merged(root, binary, s) {
        Ok(Some(json)) => json,
        _ => root,
    }
}

/// An entry has the steering that it was made with.
pub proof fn lemma_entry_steering(binary: Seq<char>, instructions: Option<Json>)
    ensures
        field(entry_json(binary, instructions), "instructions"@) == instructions,
{
    reveal_strlit("transport");
    reveal_strlit("enabled");
    reveal_strlit("command");
    reveal_strlit("instructions");
    assert("instructions"@.len() == 12);
    assert("transport"@.len() == 9);
    assert("enabled"@.len() == 7);
    assert("command"@.len() == 7);
}

/// A settled configuration has the entry that it should have.
pub proof fn lemma_settled_entry(root: Json, binary: Seq<char>, s: RuleSteering)
    requires
        merged(root, binary, s) is Ok,
    ensures
        entry_of(settled(root, binary, s)) is Some,
        same_json(
            entry_of(settled(root, binary, s))->0,
            entry_json(binary, steering_for(entry_of(root), s)),
        ),
{
    json_equality_is_reflexive(entry_json(binary, steering_for(entry_of(root), s)));
    lemma_entry_of(root);
}

proof fn lemma_entry_of(root: Json)
    requires
        root is Object,
        servers_of(root->Object_0) is Object,
    ensures
        entry_of(root) == field(servers_of(root->Object_0), ENTRY_KEY@),
{
}

/// Once the entry is in a configuration, putting it there again changes nothing.
pub proof fn merging_again_changes_nothing(root: Json, binary: Seq<char>, s: RuleSteering)
    requires
        merged(root, binary, s) is Ok,
    ensures
        merged(settled(root, binary, s), binary, s) == Ok::<Option<Json>, Seq<char>>(None),
{
    let after = settled(root, binary, s);
    if merged(root, binary, s)->Ok_0 is Some {
        let kept = steering_for(entry_of(root), s);
        lemma_entry_of(root);
        assert(entry_of(after) == Some(entry_json(binary, kept)));
        lemma_entry_steering(binary, kept);
        assert(steering_for(entry_of(after), s) == kept);
        json_equality_is_reflexive(entry_json(binary, kept));
    }
}

/// A new file holds the entry already.
pub proof fn fresh_config_is_complete(binary: Seq<char>, s: RuleSteering)
    ensures
        merged(fresh_config(entry_json(binary, steering_for(None, s))), binary, s) == Ok::<
            Option<Json>,
            Seq<char>,
        >(None),
{
    let kept = steering_for(None, s);
    lemma_entry_steering(binary, kept);
    json_equality_is_reflexive(entry_json(binary, kept));
}

/// A file that reads back as what was written to it needs no second write.
pub proof fn written_file_stays(
    again: Seq<char>,
    root: Json,
    binary: Seq<char>,
    opts: WriteOptions,
    s: RuleSteering,
)
    requires
        merged(root, binary, s) is Ok,
    ensures
        parsed(without_comments(again)) == Some(settled(root, binary, s)) ==> config_plan(
            Some(again),
            binary,
            opts,
            s,
        ) == Ok::<Plan, Seq<char>>(Plan::Unchanged { action: WriteAction::Already, note: None }),
{
    merging_again_changes_nothing(root, binary, s);
}

/// What else stands in a configuration stays: every other key, and every other server.
pub proof fn merge_keeps_the_rest(
    root: Json,
    binary: Seq<char>,
    s: RuleSteering,
    key: Seq<char>,
    server: Seq<char>,
)
    requires
        merged(root, binary, s) is Ok,
        key != SERVERS_KEY@,
        server != ENTRY_KEY@,
    ensures
        field(settled(root, binary, s), key) == field(root, key),
        field(servers_of(settled(root, binary, s)->Object_0), server) == field(
            servers_of(root->Object_0),
            server,
        ),
{
}

/// Where steering may not be created, steering that stands there stays, unless
/// rules are off and it was shipped.
pub proof fn standing_steering_stays(root: Json, binary: Seq<char>, s: RuleSteering)
    requires
        merged(root, binary, s) is Ok,
        !s.allow,
        steering_of(root) is Some,
        !(s.rules_off && is_shipped(steering_of(root)->0, s.instructions@)),
    ensures
        steering_of(settled(root, binary, s)) == steering_of(root),
{
    lemma_entry_of(root);
    lemma_entry_steering(binary, steering_for(entry_of(root), s));
}

/// With rules off, shipped steering goes.
pub proof fn shipped_steering_goes_with_rules_off(root: Json, binary: Seq<char>, s: RuleSteering)
    requires
        merged(root, binary, s) is Ok,
        !s.allow,
        s.rules_off,
        steering_of(root) is Some,
        is_shipped(steering_of(root)->0, s.instructions@),
    ensures
        steering_of(settled(root, binary, s)) is None,
{
    lemma_settled_entry(root, binary, s);
    lemma_entry_steering(binary, steering_for(entry_of(root), s));
}

/// Where steering may not be created, none appears.
pub proof fn no_steering_appears(root: Json, binary: Seq<char>, s: RuleSteering)
    requires
        merged(root, binary, s) is Ok,
        !s.allow,
        steering_of(root) is None,
    ensures
        steering_of(settled(root, binary, s)) is None,
{
    lemma_settled_entry(root, binary, s);
    lemma_entry_steering(binary, steering_for(entry_of(root), s));
}

/// Where steering may be created, the entry has the shipped text.
pub proof fn allowed_steering_is_the_shipped_text(root: Json, binary: Seq<char>, s: RuleSteering)
    requires
        merged(root, binary, s) is Ok,
        s.allow,
    ensures
        steering_of(settled(root, binary, s)) == Some(Json::Text(s.instructions@)),
{
    lemma_settled_entry(root, binary, s);
    let desired = entry_json(binary, steering_for(entry_of(root), s));
    lemma_entry_steering(binary, steering_for(entry_of(root), s));
    let e = entry_of(settled(root, binary, s))->0;
    assert(same_json(e->Object_0["instructions"@], desired->Object_0["instructions"@]));
}

} // verus!

//! What becomes of a configuration file, key by key.

use crate::commandcode::{
    Plan, RuleSteering, WriteAction, WriteOptions, config_plan, entry_json, entry_of,
    fresh_config, fresh_plan, lemma_entry_steering, lemma_settled_entry, merged, repair_plan,
    settled, steering_for, steering_of,
};
use crate::json::{Json, field, parsed, pretty, same_json};
use crate::jsonc::without_comments;
use crate::jsonc_laws::{a_text_without_comments_is_kept, is_comment_free};
use vstd::prelude::*;

verus! {

/// The entry starts this server and says nothing else but its steering: the
/// transport, that it is enabled, the binary as it was given, and no other key.
pub open spec fn starts_the_server(entry: Json, binary: Seq<char>) -> bool {
    &&& field(entry, "transport"@) == Some(Json::Text("stdio"@))
    &&& field(entry, "enabled"@) == Some(Json::Bool(true))
    &&& field(entry, "command"@) == Some(Json::Text(binary))
    &&& forall|key: Seq<char>| #[trigger]
        field(entry, key) is Some ==> key == "transport"@ || key == "enabled"@ || key == "command"@
            || key == "instructions"@
}

proof fn lemma_keys()
    ensures
        "transport"@ != "enabled"@,
        "transport"@ != "command"@,
        "transport"@ != "instructions"@,
        "enabled"@ != "command"@,
        "enabled"@ != "instructions"@,
        "command"@ != "instructions"@,
{
    reveal_strlit("transport");
    reveal_strlit("enabled");
    reveal_strlit("command");
    reveal_strlit("instructions");
    assert("instructions"@.len() == 12);
    assert("transport"@.len() == 9);
    assert("enabled"@.len() == 7);
    assert("command"@.len() == 7);
    assert("enabled"@[0] == 'e' && "command"@[0] == 'c');
}

/// An entry starts the server, whatever its steering, and has the steering that
/// it was made with.
pub proof fn an_entry_starts_the_server(binary: Seq<char>, instructions: Option<Json>)
    ensures
        starts_the_server(entry_json(binary, instructions), binary),
        field(entry_json(binary, instructions), "instructions"@) == instructions,
{
    lemma_keys();
    lemma_entry_steering(binary, instructions);
}

/// Once the plan for a configuration has been carried out, its entry starts the
/// server.
pub proof fn a_settled_entry_starts_the_server(root: Json, binary: Seq<char>, s: RuleSteering)
    requires
        merged(root, binary, s) is Ok,
    ensures
        entry_of(settled(root, binary, s)) is Some,
        starts_the_server(entry_of(settled(root, binary, s))->0, binary),
{
    lemma_settled_entry(root, binary, s);
    lemma_keys();
    let kept = steering_for(entry_of(root), s);
    let desired = entry_json(binary, kept);
    an_entry_starts_the_server(binary, kept);
    let e = entry_of(settled(root, binary, s))->0;
    let have = e->Object_0;
    let want = desired->Object_0;
    assert(have.dom() == want.dom());
    assert(same_json(have["transport"@], want["transport"@]));
    assert(same_json(have["enabled"@], want["enabled"@]));
    assert(same_json(have["command"@], want["command"@]));
    assert forall|key: Seq<char>| #[trigger] field(e, key) is Some implies key == "transport"@ || key
        == "enabled"@ || key == "command"@ || key == "instructions"@ by {
        assert(field(desired, key) is Some);
    }
}

/// A configuration is refused exactly where the entry has no place: where it is no
/// object, or its servers are none. A configuration without servers gets some.
pub proof fn a_configuration_is_refused_without_a_place(
    root: Json,
    binary: Seq<char>,
    s: RuleSteering,
)
    ensures
        !(root is Object) ==> merged(root, binary, s) == Err::<Option<Json>, Seq<char>>(
            "root JSON must be an object"@,
        ),
        root is Object && field(root, "mcpServers"@) is Some && !(field(root, "mcpServers"@)->0 is Object)
            ==> merged(root, binary, s) == Err::<Option<Json>, Seq<char>>(
            "\"mcpServers\" must be an object"@,
        ),
        root is Object && (field(root, "mcpServers"@) is None || field(root, "mcpServers"@)->0 is Object)
            ==> merged(root, binary, s) is Ok,
{
}

/// A configuration is written only where its entry changes, and always there.
pub proof fn a_configuration_is_written_where_its_entry_changes(
    root: Json,
    binary: Seq<char>,
    s: RuleSteering,
)
    ensures
        merged(root, binary, s) matches Ok(Some(json)) ==> json is Object && entry_of(json) is Some && (
        entry_of(root) is None || !same_json(entry_of(root)->0, entry_of(json)->0)),
        merged(root, binary, s) matches Ok(None) ==> entry_of(root) is Some && starts_the_server(
            entry_of(root)->0,
            binary,
        ),
{
    if merged(root, binary, s) is Ok {
        a_settled_entry_starts_the_server(root, binary, s);
    }
}

/// Steering that this program wrote: the text that is shipped now, or one that
/// starts as the earlier ones did.
pub open spec fn is_ours(instructions: Json, shipped: Seq<char>) -> bool {
    match instructions {
        Json::Text(t) => t == shipped || "lean-ctx shadow mode:"@.is_prefix_of(t),
        _ => false,
    }
}

/// The steering after a merge. Where steering may be created it is the shipped
/// text. Otherwise it is what stood there, but for our own where rules are off;
/// and where none stood there, there is none.
pub proof fn steering_follows_the_settings(root: Json, binary: Seq<char>, s: RuleSteering)
    requires
        merged(root, binary, s) is Ok,
    ensures
        steering_of(settled(root, binary, s)) == if s.allow {
            Some(Json::Text(s.instructions@))
        } else if steering_of(root) is Some && s.rules_off && is_ours(
            steering_of(root)->0,
            s.instructions@,
        ) {
            None
        } else {
            steering_of(root)
        },
{
    lemma_settled_entry(root, binary, s);
    let kept = steering_for(entry_of(root), s);
    lemma_entry_steering(binary, kept);
    let e = entry_of(settled(root, binary, s))->0;
    let desired = entry_json(binary, kept);
    if s.allow {
        assert(same_json(e->Object_0["instructions"@], desired->Object_0["instructions"@]));
    }
}

/// A new file holds the entry and nothing else.
pub proof fn a_new_file_holds_the_entry_alone(desired: Json, key: Seq<char>)
    ensures
        entry_of(fresh_config(desired)) == Some(desired),
        key != "mcpServers"@ ==> field(fresh_config(desired), key) is None,
        key != "lean-ctx"@ ==> field(field(fresh_config(desired), "mcpServers"@)->0, key) is None,
{
}

/// Whatever is written is the text of the configuration, or the message in its
/// place is the error.
pub open spec fn writes(
    plan: Result<Plan, Seq<char>>,
    json: Json,
    action: WriteAction,
    note: Option<Seq<char>>,
) -> bool {
    match pretty(json) {
        Ok(content) => plan == Ok::<Plan, Seq<char>>(Plan::Write { content, action, note }),
        Err(message) => plan == Err::<Plan, Seq<char>>(message),
    }
}

/// A file that does not exist is created with the entry alone, which has the
/// shipped steering exactly where steering may be created.
pub proof fn a_missing_file_is_created(binary: Seq<char>, opts: WriteOptions, s: RuleSteering)
    ensures
        ({
            let steering = if s.allow {
                Some(Json::Text(s.instructions@))
            } else {
                None
            };
            writes(
                config_plan(None, binary, opts, s),
                fresh_config(entry_json(binary, steering)),
                WriteAction::Created,
                None,
            )
        }),
{
}

/// A note makes a new file an update, and goes into the report.
pub proof fn a_note_makes_an_update(desired: Json, note: Seq<char>)
    ensures
        writes(
            fresh_plan(desired, Some(note)),
            fresh_config(desired),
            WriteAction::Updated,
            Some(note),
        ),
        writes(fresh_plan(desired, None), fresh_config(desired), WriteAction::Created, None),
{
}

/// A file that can be read is never repaired: it is left as it is where its entry
/// stands, written with its other contents where not, and refused where the entry
/// has no place in it.
pub proof fn a_file_that_reads_is_merged_into(
    text: Seq<char>,
    root: Json,
    binary: Seq<char>,
    opts: WriteOptions,
    s: RuleSteering,
)
    ensures
        parsed(without_comments(text)) == Some(root) ==> {
            let plan = config_plan(Some(text), binary, opts, s);
            match merged(root, binary, s) {
                Ok(None) => plan == Ok::<Plan, Seq<char>>(
                    Plan::Unchanged { action: WriteAction::Already, note: None },
                ),
                Ok(Some(_)) => writes(
                    plan,
                    settled(root, binary, s),
                    WriteAction::Updated,
                    None,
                ),
                Err(message) => plan == Err::<Plan, Seq<char>>(message),
            }
        },
{
}

/// A file that is JSON as it stands, without comments, is read as it stands.
pub proof fn plain_json_is_merged_into(
    text: Seq<char>,
    root: Json,
    binary: Seq<char>,
    opts: WriteOptions,
    s: RuleSteering,
)
    requires
        is_comment_free(text),
    ensures
        parsed(text) == Some(root) ==> !(config_plan(Some(text), binary, opts, s) matches Ok(
            Plan::Repair { desired, overwrite_invalid },
        )),
        parsed(text) == Some(root) && merged(root, binary, s) is Ok && pretty(
            settled(root, binary, s),
        ) is Ok ==> config_plan(Some(text), binary, opts, s) is Ok,
{
    a_text_without_comments_is_kept(text);
}

/// A file that cannot be read is handed on for repair with the entry that it should
/// hold, and is replaced only where that was asked for.
pub proof fn a_file_that_does_not_read_is_repaired(
    text: Seq<char>,
    binary: Seq<char>,
    opts: WriteOptions,
    s: RuleSteering,
)
    ensures
        ({
            let steering = if s.allow {
                Some(Json::Text(s.instructions@))
            } else {
                None
            };
            let desired = entry_json(binary, steering);
            &&& parsed(without_comments(text)) is None ==> config_plan(Some(text), binary, opts, s)
                == Ok::<Plan, Seq<char>>(
                Plan::Repair { desired, overwrite_invalid: opts.overwrite_invalid },
            )
            &&& repair_plan(desired, false) is Err
            &&& repair_plan(desired, true) matches Ok(plan) ==> plan is Write && plan->Write_action
                == WriteAction::Updated && plan->Write_note is Some && pretty(fresh_config(desired))
                == Ok::<Seq<char>, Seq<char>>(plan->Write_content)
        }),
{
}

} // verus!

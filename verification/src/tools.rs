//! The tools that the model may call.

use serde_json::Value;
use vstd::prelude::*;

use crate::json::{json_bool, json_list, json_object, json_of, json_text, members_map, Json};

verus! {

/// A tool: its name, what it is for, and the schema of its input.
pub struct ToolDef {
    pub name: String,
    pub description: String,
    pub input_schema: Value,
}

/// The schema of a string.
pub open spec fn string_schema(description: Seq<char>) -> Json {
    Json::Object(
        map!["type"@ => Json::Text("string"@), "description"@ => Json::Text(description)],
    )
}

/// The schema of a string of a given form.
pub open spec fn pattern_schema(pattern: Seq<char>, description: Seq<char>) -> Json {
    Json::Object(
        map![
            "type"@ => Json::Text("string"@),
            "pattern"@ => Json::Text(pattern),
            "description"@ => Json::Text(description),
        ],
    )
}

/// What `play_move` takes: a point, and the reason for it.
pub open spec fn play_move_schema() -> Json {
    Json::Object(
        map![
            "type"@ => Json::Text("object"@),
            "properties"@ => Json::Object(
                map![
                    "point"@ => pattern_schema(
                        "^([A-HJ-T](1[0-9]|[1-9])|pass)$"@,
                        "Coordinate such as Q16, or 'pass'."@,
                    ),
                    "reasoning"@ => string_schema("One line: why here."@),
                ],
            ),
            "required"@ => Json::List(seq![Json::Text("point"@), Json::Text("reasoning"@)]),
            "additionalProperties"@ => Json::Bool(false),
        ],
    )
}

/// What `update_notes` takes: either tier of the scratchpad, or both.
pub open spec fn update_notes_schema() -> Json {
    Json::Object(
        map![
            "type"@ => Json::Text("object"@),
            "properties"@ => Json::Object(
                map![
                    "strategy"@ => string_schema(
                        "Durable plan, e.g. 'playing for influence on the left'."@,
                    ),
                    "tactics"@ => string_schema("Current fight only; expires."@),
                ],
            ),
            "additionalProperties"@ => Json::Bool(false),
        ],
    )
}

/// The tool that places a stone or passes.
pub open spec fn is_play_move_tool(t: ToolDef) -> bool {
    &&& t.name@ == "play_move"@
    &&& t.description@
        == "Place a stone at a point, or pass. Columns A-T excluding I; rows 1-19."@
    &&& json_of(t.input_schema) == play_move_schema()
}

/// The tool that rewrites the scratchpad.
pub open spec fn is_update_notes_tool(t: ToolDef) -> bool {
    &&& t.name@ == "update_notes"@
    &&& t.description@
        == "Rewrite your scratchpad. Strategy is durable; tactics are per-fight and expected to be replaced often. Both are truncated if long."@
    &&& json_of(t.input_schema) == update_notes_schema()
}

/// The keys of a schema are different texts.
proof fn lemma_keys()
    ensures
        "type"@.len() == 4,
        "pattern"@.len() == 7,
        "description"@.len() == 11,
        "point"@.len() == 5,
        "reasoning"@.len() == 9,
        "strategy"@.len() == 8,
        "tactics"@.len() == 7,
        "properties"@.len() == 10,
        "required"@.len() == 8,
        "additionalProperties"@.len() == 20,
{
    reveal_strlit("type");
    reveal_strlit("pattern");
    reveal_strlit("description");
    reveal_strlit("point");
    reveal_strlit("reasoning");
    reveal_strlit("strategy");
    reveal_strlit("tactics");
    reveal_strlit("properties");
    reveal_strlit("required");
    reveal_strlit("additionalProperties");
}

fn describe_string(description: &str) -> (r: Value)
    ensures
        json_of(r) == string_schema(description@),
{
    let members = vec![
        ("type".to_owned(), json_text("string")),
        ("description".to_owned(), json_text(description)),
    ];
    proof {
        lemma_keys();
        lemma_members_two(members@);
    }
    json_object(members)
}

fn describe_pattern(pattern: &str, description: &str) -> (r: Value)
    ensures
        json_of(r) == pattern_schema(pattern@, description@),
{
    let members = vec![
        ("type".to_owned(), json_text("string")),
        ("pattern".to_owned(), json_text(pattern)),
        ("description".to_owned(), json_text(description)),
    ];
    proof {
        lemma_keys();
        lemma_members_three(members@);
    }
    json_object(members)
}

proof fn lemma_members_two(m: Seq<(String, Value)>)
    requires
        m.len() == 2,
    ensures
        members_map(m) == map![m[0].0@ => json_of(m[0].1), m[1].0@ => json_of(m[1].1)],
{
    reveal_with_fuel(members_map, 3);
}

proof fn lemma_members_three(m: Seq<(String, Value)>)
    requires
        m.len() == 3,
    ensures
        members_map(m) == map![
            m[0].0@ => json_of(m[0].1),
            m[1].0@ => json_of(m[1].1),
            m[2].0@ => json_of(m[2].1),
        ],
{
    lemma_members_two(m.drop_last());
}

proof fn lemma_members_four(m: Seq<(String, Value)>)
    requires
        m.len() == 4,
    ensures
        members_map(m) == map![
            m[0].0@ => json_of(m[0].1),
            m[1].0@ => json_of(m[1].1),
            m[2].0@ => json_of(m[2].1),
            m[3].0@ => json_of(m[3].1),
        ],
{
    lemma_members_three(m.drop_last());
}

/// Place a stone, or pass.
pub fn play_move_tool() -> (r: ToolDef)
    ensures
        is_play_move_tool(r),
{
    let point = describe_pattern(
        "^([A-HJ-T](1[0-9]|[1-9])|pass)$",
        "Coordinate such as Q16, or 'pass'.",
    );
    let reasoning = describe_string("One line: why here.");
    let fields = vec![("point".to_owned(), point), ("reasoning".to_owned(), reasoning)];
    proof {
        lemma_keys();
        lemma_members_two(fields@);
    }
    let properties = json_object(fields);
    let names = vec![json_text("point"), json_text("reasoning")];
    let ghost listed = Seq::new(names@.len(), |i: int| json_of(names@[i]));
    assert(listed =~= seq![Json::Text("point"@), Json::Text("reasoning"@)]);
    let required = json_list(names);
    let members = vec![
        ("type".to_owned(), json_text("object")),
        ("properties".to_owned(), properties),
        ("required".to_owned(), required),
        ("additionalProperties".to_owned(), json_bool(false)),
    ];
    proof {
        lemma_members_four(members@);
    }
    ToolDef {
        name: "play_move".to_owned(),
        description:
            "Place a stone at a point, or pass. Columns A-T excluding I; rows 1-19.".to_owned(),
        input_schema: json_object(members),
    }
}

/// Rewrite the scratchpad.
pub fn update_notes_tool() -> (r: ToolDef)
    ensures
        is_update_notes_tool(r),
{
    let strategy = describe_string("Durable plan, e.g. 'playing for influence on the left'.");
    let tactics = describe_string("Current fight only; expires.");
    let fields = vec![("strategy".to_owned(), strategy), ("tactics".to_owned(), tactics)];
    proof {
        lemma_keys();
        lemma_members_two(fields@);
    }
    let properties = json_object(fields);
    let members = vec![
        ("type".to_owned(), json_text("object")),
        ("properties".to_owned(), properties),
        ("additionalProperties".to_owned(), json_bool(false)),
    ];
    proof {
        lemma_members_three(members@);
    }
    ToolDef {
        name: "update_notes".to_owned(),
        description:
            "Rewrite your scratchpad. Strategy is durable; tactics are per-fight and expected to be replaced often. Both are truncated if long.".to_owned(),
        input_schema: json_object(members),
    }
}

/// To make a move the model must name the point and the reason, and may give
/// nothing else; the point is a letter from A to T without I and a number from 1
/// to 19, or a pass.
pub proof fn law_what_a_move_takes(t: ToolDef)
    requires
        is_play_move_tool(t),
    ensures
        t.name@ == "play_move"@,
        json_of(t.input_schema) matches Json::Object(schema) && {
            &&& schema["type"@] == Json::Text("object"@)
            &&& schema["required"@] == Json::List(
                seq![Json::Text("point"@), Json::Text("reasoning"@)],
            )
            &&& schema["additionalProperties"@] == Json::Bool(false)
            &&& schema["properties"@] matches Json::Object(fields) && {
                &&& fields.dom() == set!["point"@, "reasoning"@]
                &&& fields["point"@] matches Json::Object(point) && point["type"@] == Json::Text(
                    "string"@,
                ) && point["pattern"@] == Json::Text("^([A-HJ-T](1[0-9]|[1-9])|pass)$"@)
                &&& fields["reasoning"@] matches Json::Object(reason) && reason["type"@]
                    == Json::Text("string"@)
            }
        },
{
    lemma_keys();
    if let Json::Object(schema) = json_of(t.input_schema) {
        if let Json::Object(fields) = schema["properties"@] {
            assert(fields.dom() =~= set!["point"@, "reasoning"@]);
        }
    }
}

/// To keep notes the model may give either tier, need not give any, and may give
/// nothing else.
pub proof fn law_what_notes_take(t: ToolDef)
    requires
        is_update_notes_tool(t),
    ensures
        t.name@ == "update_notes"@,
        json_of(t.input_schema) matches Json::Object(schema) && {
            &&& schema["type"@] == Json::Text("object"@)
            &&& !schema.dom().contains("required"@)
            &&& schema["additionalProperties"@] == Json::Bool(false)
            &&& schema["properties"@] matches Json::Object(fields) && {
                &&& fields.dom() == set!["strategy"@, "tactics"@]
                &&& fields["strategy"@] matches Json::Object(strategy) && strategy["type"@]
                    == Json::Text("string"@)
                &&& fields["tactics"@] matches Json::Object(tactics) && tactics["type"@]
                    == Json::Text("string"@)
            }
        },
{
    lemma_keys();
    if let Json::Object(schema) = json_of(t.input_schema) {
        if let Json::Object(fields) = schema["properties"@] {
            assert(fields.dom() =~= set!["strategy"@, "tactics"@]);
        }
    }
}

} // verus!

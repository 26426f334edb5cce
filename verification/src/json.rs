//! JSON documents as the studio reads them: the shape of a body and the
//! evidence handed to an assistant. Parsing and printing are serde_json's.
use vstd::prelude::*;

verus! {

/// A JSON document.
#[derive(Debug, PartialEq, Eq)]
pub enum JsonValue {
    Null,
    Bool(bool),
    /// A number, in the text serde_json writes for it.
    Number(String),
    String(String),
    Array(Vec<JsonValue>),
    /// The members of an object, in the order serde_json keeps them.
    Object(Vec<(String, JsonValue)>),
}

/// What `serde_json::from_str::<serde_json::Value>` reads from a text, or
/// the text of the error it reports where the text is not a JSON document.
pub uninterp spec fn json_parse(text: Seq<char>) -> Result<JsonValue, Seq<char>>;

/// What `serde_json::to_string_pretty` writes for a document, or the text
/// of the error it reports; for a document with a number text that
/// serde_json does not read as a number, the text of that reading's error.
pub uninterp spec fn json_pretty(value: JsonTree) -> Result<Seq<char>, Seq<char>>;

/// What `serde_json::to_string` writes for a document, or the text of the
/// error it reports; for a document with a number text that serde_json
/// does not read as a number, the text of that reading's error.
pub uninterp spec fn json_compact(value: JsonTree) -> Result<Seq<char>, Seq<char>>;

/// Reads a JSON document with `serde_json::from_str`. The contract claims
/// that the result is the one serde_json gives for this text, and that no
/// string in the document is as long as the text, since each is written
/// there between quotes and an escape never writes fewer characters than
/// it stands for.
#[verifier::external_body]
pub fn parse_json(text: &str) -> (r: Result<JsonValue, String>)
    ensures
        match r {
            Ok(v) => json_parse(text@) == Ok::<JsonValue, Seq<char>>(v) && longest_text(tree_of(v)) < text@.len(),
            Err(e) => json_parse(text@) == Err::<JsonValue, Seq<char>>(e@),
        },
{
    match serde_json::from_str::<serde_json::Value>(text) {
        Ok(value) => Ok(from_serde(value)),
        Err(error) => Err(error.to_string()),
    }
}

/// What `serde_json::from_slice::<serde_json::Value>` reads from bytes, or
/// the text of the error it reports.
pub uninterp spec fn json_parse_bytes(bytes: Seq<u8>) -> Result<JsonValue, Seq<char>>;

/// Reads a JSON document from bytes with `serde_json::from_slice`; the
/// contract claims only that the result, or the error's text, is the one
/// serde_json gives for these bytes.
#[verifier::external_body]
pub fn parse_json_bytes(bytes: &[u8]) -> (r: Result<JsonValue, String>)
    ensures
        match r {
            Ok(v) => json_parse_bytes(bytes@) == Ok::<JsonValue, Seq<char>>(v),
            Err(e) => json_parse_bytes(bytes@) == Err::<JsonValue, Seq<char>>(e@),
        },
{
    match serde_json::from_slice::<serde_json::Value>(bytes) {
        Ok(value) => Ok(from_serde(value)),
        Err(error) => Err(error.to_string()),
    }
}

/// Writes a document with `serde_json::to_string_pretty`; the contract
/// claims only that the text, or the error's text, is the one serde_json
/// gives for it.
#[verifier::external_body]
pub fn pretty_json(value: &JsonValue) -> (r: Result<String, String>)
    ensures
        match r {
            Ok(s) => json_pretty(tree_of(*value)) == Ok::<Seq<char>, Seq<char>>(s@),
            Err(e) => json_pretty(tree_of(*value)) == Err::<Seq<char>, Seq<char>>(e@),
        },
{
    match serde_json::to_string_pretty(&to_serde(value)?) {
        Ok(text) => Ok(text),
        Err(error) => Err(error.to_string()),
    }
}

/// Writes a document with `serde_json::to_string`; the contract claims
/// only that the text, or the error's text, is the one serde_json gives
/// for it.
#[verifier::external_body]
pub fn compact_json(value: &JsonValue) -> (r: Result<String, String>)
    ensures
        match r {
            Ok(s) => json_compact(tree_of(*value)) == Ok::<Seq<char>, Seq<char>>(s@),
            Err(e) => json_compact(tree_of(*value)) == Err::<Seq<char>, Seq<char>>(e@),
        },
{
    match serde_json::to_string(&to_serde(value)?) {
        Ok(text) => Ok(text),
        Err(error) => Err(error.to_string()),
    }
}

/// serde_json's own document type, carried through the two converters below.
#[verifier::external_type_specification]
#[verifier::external_body]
pub struct ExSerdeValue(serde_json::Value);

/// The document a `serde_json::Value` holds, member for member; only the
/// wrappers above use it.
#[verifier::external_body]
fn from_serde(value: serde_json::Value) -> JsonValue {
    match value {
        serde_json::Value::Null => JsonValue::Null,
        serde_json::Value::Bool(flag) => JsonValue::Bool(flag),
        serde_json::Value::Number(number) => JsonValue::Number(number.to_string()),
        serde_json::Value::String(text) => JsonValue::String(text),
        serde_json::Value::Array(items) => JsonValue::Array(items.into_iter().map(from_serde).collect()),
        serde_json::Value::Object(members) => JsonValue::Object(
            members.into_iter().map(|(key, child)| (key, from_serde(child))).collect(),
        ),
    }
}

/// The `serde_json::Value` for a document, member for member, or the text
/// of the error serde_json reports for a number text it does not read;
/// only the wrappers above use it.
#[verifier::external_body]
fn to_serde(value: &JsonValue) -> Result<serde_json::Value, String> {
    Ok(match value {
        JsonValue::Null => serde_json::Value::Null,
        JsonValue::Bool(flag) => serde_json::Value::Bool(*flag),
        JsonValue::Number(text) => serde_json::Value::Number(text.parse().map_err(|e: serde_json::Error| e.to_string())?),
        JsonValue::String(text) => serde_json::Value::String(text.clone()),
        JsonValue::Array(items) => serde_json::Value::Array(items.iter().map(to_serde).collect::<Result<_, _>>()?),
        JsonValue::Object(members) => serde_json::Value::Object(
            members.iter().map(|(key, child)| Ok((key.clone(), to_serde(child)?))).collect::<Result<_, String>>()?,
        ),
    })
}

/// The name of a value's JSON type.
pub open spec fn kind_name(value: JsonValue) -> Seq<char> {
    match value {
        JsonValue::Null => "null"@,
        JsonValue::Bool(_) => "boolean"@,
        JsonValue::Number(_) => "number"@,
        JsonValue::String(_) => "string"@,
        JsonValue::Array(_) => "array"@,
        JsonValue::Object(_) => "object"@,
    }
}

/// The name of a value's JSON type.
pub fn json_type(value: &JsonValue) -> (r: &'static str)
    ensures
        r@ == kind_name(*value),
{
    match value {
        JsonValue::Null => "null",
        JsonValue::Bool(_) => "boolean",
        JsonValue::Number(_) => "number",
        JsonValue::String(_) => "string",
        JsonValue::Array(_) => "array",
        JsonValue::Object(_) => "object",
    }
}


/// A JSON document as a mathematical value.
pub enum JsonTree {
    Null,
    Bool(bool),
    Number(Seq<char>),
    Str(Seq<char>),
    Array(Seq<JsonTree>),
    Object(Seq<(Seq<char>, JsonTree)>),
}

/// The document a value holds.
pub open spec fn tree_of(value: JsonValue) -> JsonTree
    decreases value,
{
    match value {
        JsonValue::Null => JsonTree::Null,
        JsonValue::Bool(b) => JsonTree::Bool(b),
        JsonValue::Number(n) => JsonTree::Number(n@),
        JsonValue::String(s) => JsonTree::Str(s@),
        JsonValue::Array(items) => JsonTree::Array(trees_of(items@)),
        JsonValue::Object(members) => JsonTree::Object(members_of(members@)),
    }
}

pub open spec fn trees_of(items: Seq<JsonValue>) -> Seq<JsonTree>
    decreases items,
{
    if items.len() == 0 {
        seq![]
    } else {
        seq![tree_of(items[0])] + trees_of(items.drop_first())
    }
}

pub open spec fn members_of(members: Seq<(String, JsonValue)>) -> Seq<(Seq<char>, JsonTree)>
    decreases members,
{
    if members.len() == 0 {
        seq![]
    } else {
        seq![(members[0].0@, tree_of(members[0].1))] + members_of(members.drop_first())
    }
}


/// The length of the longest string value in a document.
pub open spec fn longest_text(t: JsonTree) -> nat
    decreases t,
{
    match t {
        JsonTree::Str(s) => s.len(),
        JsonTree::Array(items) => longest_in_items(items),
        JsonTree::Object(members) => longest_in_members(members),
        _ => 0,
    }
}

pub open spec fn longest_in_items(items: Seq<JsonTree>) -> nat
    decreases items,
{
    if items.len() == 0 {
        0
    } else {
        let a = longest_text(items[0]);
        let b = longest_in_items(items.drop_first());
        if a >= b {
            a
        } else {
            b
        }
    }
}

pub open spec fn longest_in_members(members: Seq<(Seq<char>, JsonTree)>) -> nat
    decreases members,
{
    if members.len() == 0 {
        0
    } else {
        let a = longest_text(members[0].1);
        let b = longest_in_members(members.drop_first());
        if a >= b {
            a
        } else {
            b
        }
    }
}

/// A copy of a document.
pub fn copy_json(value: &JsonValue) -> (r: JsonValue)
    ensures
        tree_of(r) == tree_of(*value),
    decreases value,
{
    match value {
        JsonValue::Null => JsonValue::Null,
        JsonValue::Bool(b) => JsonValue::Bool(*b),
        JsonValue::Number(n) => JsonValue::Number(crate::text::copy_string(n)),
        JsonValue::String(s) => JsonValue::String(crate::text::copy_string(s)),
        JsonValue::Array(items) => {
            let mut out: Vec<JsonValue> = Vec::new();
            let mut i: usize = 0;
            assert(items@.skip(0) == items@);
            while i < items.len()
                invariant
                    *value == JsonValue::Array(*items),
                    i <= items@.len(),
                    trees_of(out@) + trees_of(items@.skip(i as int)) == trees_of(items@),
                decreases items@.len() - i,
            {
                proof {
                    assert(decreases_to!(*value => (*value)->Array_0));
                    assert(decreases_to!(*items => items@));
                    assert(decreases_to!(items@ => items@[i as int]));
                }
                let c = copy_json(&items[i]);
                let ghost before = out@;
                out.push(c);
                proof {
                    lemma_trees_of_push(before, c);
                    let rest = items@.skip(i as int);
                    assert(rest[0] == items@[i as int]);
                    assert(rest.drop_first() == items@.skip(i + 1));
                }
                i = i + 1;
            }
            assert(items@.skip(i as int) == Seq::<JsonValue>::empty());
            assert(trees_of(out@) + seq![] == trees_of(out@));
            JsonValue::Array(out)
        },
        JsonValue::Object(members) => {
            let mut out: Vec<(String, JsonValue)> = Vec::new();
            let mut i: usize = 0;
            assert(members@.skip(0) == members@);
            while i < members.len()
                invariant
                    *value == JsonValue::Object(*members),
                    i <= members@.len(),
                    members_of(out@) + members_of(members@.skip(i as int)) == members_of(members@),
                decreases members@.len() - i,
            {
                proof {
                    assert(decreases_to!(*value => (*value)->Object_0));
                    assert(decreases_to!(*members => members@));
                    assert(decreases_to!(members@ => members@[i as int]));
                    assert(decreases_to!(members@[i as int] => members@[i as int].1));
                }
                let c = copy_json(&members[i].1);
                let k = crate::text::copy_string(&members[i].0);
                let ghost before = out@;
                out.push((k, c));
                proof {
                    lemma_members_of_push(before, (k, c));
                    let rest = members@.skip(i as int);
                    assert(rest[0] == members@[i as int]);
                    assert(rest.drop_first() == members@.skip(i + 1));
                }
                i = i + 1;
            }
            assert(members@.skip(i as int) == Seq::<(String, JsonValue)>::empty());
            assert(members_of(out@) + seq![] == members_of(out@));
            JsonValue::Object(out)
        },
    }
}

pub proof fn lemma_trees_of_push(items: Seq<JsonValue>, x: JsonValue)
    ensures
        trees_of(items.push(x)) == trees_of(items).push(tree_of(x)),
    decreases items.len(),
{
    if items.len() == 0 {
        assert(items.push(x).drop_first() == Seq::<JsonValue>::empty());
        assert(trees_of(Seq::<JsonValue>::empty()) == Seq::<JsonTree>::empty());
        assert(items.push(x)[0] == x);
        assert(trees_of(items.push(x)) =~= seq![tree_of(x)]);
    } else {
        lemma_trees_of_push(items.drop_first(), x);
        assert(items.push(x).drop_first() == items.drop_first().push(x));
        assert(items.push(x)[0] == items[0]);
        assert(trees_of(items.push(x)) =~= seq![tree_of(items[0])] + trees_of(items.drop_first()).push(tree_of(x)));
    }
}

pub proof fn lemma_members_of_push(members: Seq<(String, JsonValue)>, x: (String, JsonValue))
    ensures
        members_of(members.push(x)) == members_of(members).push((x.0@, tree_of(x.1))),
    decreases members.len(),
{
    if members.len() == 0 {
        assert(members.push(x).drop_first() == Seq::<(String, JsonValue)>::empty());
        assert(members_of(Seq::<(String, JsonValue)>::empty()) == Seq::<(Seq<char>, JsonTree)>::empty());
        assert(members.push(x)[0] == x);
        assert(members_of(members.push(x)) =~= seq![(x.0@, tree_of(x.1))]);
    } else {
        lemma_members_of_push(members.drop_first(), x);
        assert(members.push(x).drop_first() == members.drop_first().push(x));
        assert(members.push(x)[0] == members[0]);
        assert(members_of(members.push(x)) =~= seq![(members[0].0@, tree_of(members[0].1))] + members_of(
            members.drop_first(),
        ).push((x.0@, tree_of(x.1))));
    }
}


pub proof fn lemma_trees_of_index(items: Seq<JsonValue>)
    ensures
        trees_of(items).len() == items.len(),
        forall|j: int| 0 <= j < items.len() ==> #[trigger] trees_of(items)[j] == tree_of(items[j]),
    decreases items.len(),
{
    if items.len() > 0 {
        lemma_trees_of_index(items.drop_first());
        assert forall|j: int| 0 <= j < items.len() implies #[trigger] trees_of(items)[j] == tree_of(items[j]) by {
            if j > 0 {
                assert(trees_of(items)[j] == trees_of(items.drop_first())[j - 1]);
            }
        }
    }
}

pub proof fn lemma_members_of_index(members: Seq<(String, JsonValue)>)
    ensures
        members_of(members).len() == members.len(),
        forall|j: int| 0 <= j < members.len() ==> #[trigger] members_of(members)[j] == (members[j].0@, tree_of(members[j].1)),
    decreases members.len(),
{
    if members.len() > 0 {
        lemma_members_of_index(members.drop_first());
        assert forall|j: int| 0 <= j < members.len() implies #[trigger] members_of(members)[j] == (
            members[j].0@,
            tree_of(members[j].1),
        ) by {
            if j > 0 {
                assert(members_of(members)[j] == members_of(members.drop_first())[j - 1]);
            }
        }
    }
}

/// No item holds a longer string than the array.
pub proof fn lemma_longest_in_items(items: Seq<JsonTree>, j: int)
    requires
        0 <= j < items.len(),
    ensures
        longest_text(items[j]) <= longest_in_items(items),
    decreases j,
{
    if j > 0 {
        lemma_longest_in_items(items.drop_first(), j - 1);
    }
}

/// No member holds a longer string than the object.
pub proof fn lemma_longest_in_members(members: Seq<(Seq<char>, JsonTree)>, j: int)
    requires
        0 <= j < members.len(),
    ensures
        longest_text(members[j].1) <= longest_in_members(members),
    decreases j,
{
    if j > 0 {
        lemma_longest_in_members(members.drop_first(), j - 1);
    }
}

} // verus!

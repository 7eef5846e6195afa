//! The structural schema of the IR document shape: a generated JSON-Schema
//! document for external tooling, and the structural checks run on untyped
//! documents before typed extraction.

use vstd::prelude::*;

use crate::KeypathError;
use crate::json::{
    JsonModel, JsonValue, has_name, lemma_member_models_of, lookup, member_models_of, obj_get,
    render, render_document,
};

verus! {

broadcast use vstd::std_specs::vec::group_vec_axioms, vstd::seq::group_seq_axioms, vstd::array::group_array_axioms;

/// The structural defect of one entry under `keys`, if any.
pub open spec fn entry_issue(e: (Seq<char>, JsonModel)) -> Option<Seq<char>> {
    match e.1 {
        JsonModel::Obj(fields) => {
            if has_name(fields, "tap"@) {
                Option::None
            } else {
                Option::Some("Key '"@ + e.0 + "' missing required field: tap"@)
            }
        },
        _ => Option::Some("Key '"@ + e.0 + "' must be an object"@),
    }
}

pub open spec fn keys_check(entries: Seq<(Seq<char>, JsonModel)>) -> Option<Seq<char>>
    decreases entries,
{
    if entries.len() == 0 {
        Option::None
    } else {
        match entry_issue(entries.first()) {
            Option::Some(m) => Option::Some(m),
            Option::None => keys_check(entries.drop_first()),
        }
    }
}

/// The first structural violation of a document against the IR shape: the
/// root must be an object, `keys` must be present and an object, and every
/// entry under `keys` must be an object carrying `tap`.
pub open spec fn schema_check(m: JsonModel) -> Option<Seq<char>> {
    match m {
        JsonModel::Obj(members) => match lookup(members, "keys"@) {
            Option::Some(k) => match k {
                JsonModel::Obj(entries) => keys_check(entries),
                _ => Option::Some("Field 'keys' must be an object"@),
            },
            Option::None => Option::Some("Missing required field: keys"@),
        },
        _ => Option::Some("Root must be an object"@),
    }
}

/// Validate a document against the IR schema. The schema argument is
/// accepted for interface parity; the checks follow the IR shape itself.
#[verifier::loop_isolation(false)]
pub fn validate_json_schema(json_value: &JsonValue, _schema: &JsonValue) -> (r: Result<
    (),
    String,
>)
    ensures
        match r {
            Result::Ok(_) => schema_check(json_value@) is None,
            Result::Err(m) => schema_check(json_value@) == Option::Some(m@),
        },
{
    match json_value {
        JsonValue::Obj(members) => {
            match obj_get(members, "keys") {
                None => Err("Missing required field: keys".to_owned()),
                Some(k) => match k {
                    JsonValue::Obj(entries) => {
                        let ghost mm = member_models_of(entries@);
                        proof {
                            lemma_member_models_of(entries@);
                            assert(mm.skip(0) =~= mm);
                        }
                        let n = entries.len();
                        let mut i: usize = 0;
                        while i < n
                            invariant
                                i <= n,
                                n == entries@.len(),
                                mm == member_models_of(entries@),
                                mm.len() == n,
                                forall|q: int|
                                    0 <= q < n ==> mm[q] == ((#[trigger] entries@[q]).0@,
                                    crate::json::model_of(entries@[q].1)),
                                keys_check(mm) == keys_check(mm.skip(i as int)),
                            decreases n - i,
                        {
                            proof {
                                assert(mm.skip(i as int).first() == mm[i as int]);
                                assert(mm.skip(i as int).drop_first() =~= mm.skip(i + 1));
                            }
                            match &entries[i].1 {
                                JsonValue::Obj(fields) => {
                                    match obj_get(fields, "tap") {
                                        Some(_) => {
                                            proof {
                                                assert(entry_issue(mm[i as int]) is None);
                                            }
                                        },
                                        None => {
                                            let mut m = "Key '".to_owned();
                                            m.append(entries[i].0.as_str());
                                            m.append("' missing required field: tap");
                                            proof {
                                                assert(m@ =~= "Key '"@ + mm[i as int].0
                                                    + "' missing required field: tap"@);
                                                assert(entry_issue(mm[i as int])
                                                    == Option::Some(m@));
                                            }
                                            return Err(m);
                                        },
                                    }
                                },
                                _ => {
                                    let m = key_obj_message(&entries[i].0);
                                    proof {
                                        assert(entry_issue(mm[i as int]) == Option::Some(m@));
                                    }
                                    return Err(m);
                                },
                            }
                            i = i + 1;
                        }
                        proof {
                            assert(mm.skip(n as int) =~= Seq::<(Seq<char>, JsonModel)>::empty());
                        }
                        Ok(())
                    },
                    _ => Err("Field 'keys' must be an object".to_owned()),
                },
            }
        },
        _ => Err("Root must be an object".to_owned()),
    }
}

fn key_obj_message(name: &String) -> (r: String)
    ensures
        r@ == "Key '"@ + name@ + "' must be an object"@,
{
    let mut m = "Key '".to_owned();
    m.append(name.as_str());
    m.append("' must be an object");
    proof {
        assert(m@ =~= "Key '"@ + name@ + "' must be an object"@);
    }
    m
}

/// Two-member object model, built without array literals.
pub open spec fn obj2(n1: Seq<char>, v1: JsonModel, n2: Seq<char>, v2: JsonModel) -> JsonModel {
    JsonModel::Obj(Seq::empty().push((n1, v1)).push((n2, v2)))
}

pub open spec fn obj3(
    n1: Seq<char>,
    v1: JsonModel,
    n2: Seq<char>,
    v2: JsonModel,
    n3: Seq<char>,
    v3: JsonModel,
) -> JsonModel {
    JsonModel::Obj(Seq::empty().push((n1, v1)).push((n2, v2)).push((n3, v3)))
}

pub open spec fn obj5(
    n1: Seq<char>,
    v1: JsonModel,
    n2: Seq<char>,
    v2: JsonModel,
    n3: Seq<char>,
    v3: JsonModel,
    n4: Seq<char>,
    v4: JsonModel,
    n5: Seq<char>,
    v5: JsonModel,
) -> JsonModel {
    JsonModel::Obj(
        Seq::empty().push((n1, v1)).push((n2, v2)).push((n3, v3)).push((n4, v4)).push((n5, v5)),
    )
}

/// `{"type": t}`.
pub open spec fn type_schema(t: Seq<char>) -> JsonModel {
    JsonModel::Obj(seq![("type"@, JsonModel::Str(t))])
}

/// `{"$ref": r}`.
pub open spec fn ref_schema(r: Seq<char>) -> JsonModel {
    JsonModel::Obj(seq![("$ref"@, JsonModel::Str(r))])
}

/// Schema of an array of strings.
pub open spec fn string_array_schema() -> JsonModel {
    obj2("type"@, JsonModel::Str("array"@), "items"@, type_schema("string"@))
}

pub open spec fn complex_action_schema() -> JsonModel {
    obj2(
        "type"@,
        JsonModel::Str("object"@),
        "properties"@,
        obj2("layer"@, type_schema("string"@), "macro_name"@, type_schema("string"@)),
    )
}

pub open spec fn action_schema() -> JsonModel {
    JsonModel::Obj(
        seq![
            (
                "anyOf"@,
                JsonModel::Arr(
                    Seq::empty().push(type_schema("string"@)).push(
                        ref_schema("#/definitions/ComplexAction"@),
                    ),
                ),
            ),
        ],
    )
}

pub open spec fn key_schema() -> JsonModel {
    obj3(
        "type"@,
        JsonModel::Str("object"@),
        "properties"@,
        obj5(
            "tap"@,
            ref_schema("#/definitions/Action"@),
            "hold"@,
            ref_schema("#/definitions/Action"@),
            "mods"@,
            string_array_schema(),
            "when"@,
            type_schema("string"@),
            "macros"@,
            string_array_schema(),
        ),
        "required"@,
        JsonModel::Arr(seq![JsonModel::Str("tap"@)]),
    )
}

/// The structural schema of the whole IR document.
pub open spec fn schema_model() -> JsonModel {
    obj5(
        "title"@,
        JsonModel::Str("IR"@),
        "type"@,
        JsonModel::Str("object"@),
        "properties"@,
        obj5(
            "meta"@,
            type_schema("object"@),
            "keys"@,
            obj2(
                "type"@,
                JsonModel::Str("object"@),
                "additionalProperties"@,
                ref_schema("#/definitions/Key"@),
            ),
            "macros"@,
            type_schema("object"@),
            "conditions"@,
            type_schema("object"@),
            "layers"@,
            string_array_schema(),
        ),
        "required"@,
        JsonModel::Arr(seq![JsonModel::Str("keys"@)]),
        "definitions"@,
        obj3(
            "Action"@,
            action_schema(),
            "ComplexAction"@,
            complex_action_schema(),
            "Key"@,
            key_schema(),
        ),
    )
}

fn jstr(s: &str) -> (r: JsonValue)
    ensures
        r@ == JsonModel::Str(s@),
{
    JsonValue::Str(s.to_owned())
}

fn mk_obj1(n1: &str, v1: JsonValue) -> (r: JsonValue)
    ensures
        r@ == JsonModel::Obj(seq![(n1@, v1@)]),
{
    let ghost m1 = v1@;
    let mut ms: Vec<(String, JsonValue)> = Vec::new();
    ms.push((n1.to_owned(), v1));
    proof {
        lemma_member_models_of(ms@);
        assert(member_models_of(ms@) =~~= seq![(n1@, m1)]);
    }
    JsonValue::Obj(ms)
}

fn mk_obj2(n1: &str, v1: JsonValue, n2: &str, v2: JsonValue) -> (r: JsonValue)
    ensures
        r@ == obj2(n1@, v1@, n2@, v2@),
{
    let ghost m1 = v1@;
    let ghost m2 = v2@;
    let mut ms: Vec<(String, JsonValue)> = Vec::new();
    ms.push((n1.to_owned(), v1));
    ms.push((n2.to_owned(), v2));
    proof {
        lemma_member_models_of(ms@);
        assert(ms@[0].0@ == n1@);
        assert(crate::json::model_of(ms@[0].1) == m1);
        assert(member_models_of(ms@)[0] == (n1@, m1));
        assert(ms@[1].0@ == n2@);
        assert(crate::json::model_of(ms@[1].1) == m2);
        assert(member_models_of(ms@)[1] == (n2@, m2));
        assert(member_models_of(ms@) =~~= Seq::empty().push((n1@, m1)).push((n2@, m2)));
    }
    JsonValue::Obj(ms)
}

fn mk_obj3(n1: &str, v1: JsonValue, n2: &str, v2: JsonValue, n3: &str, v3: JsonValue) -> (r:
    JsonValue)
    ensures
        r@ == obj3(n1@, v1@, n2@, v2@, n3@, v3@),
{
    let ghost m1 = v1@;
    let ghost m2 = v2@;
    let ghost m3 = v3@;
    let mut ms: Vec<(String, JsonValue)> = Vec::new();
    ms.push((n1.to_owned(), v1));
    ms.push((n2.to_owned(), v2));
    ms.push((n3.to_owned(), v3));
    proof {
        lemma_member_models_of(ms@);
        assert(ms@[0].0@ == n1@);
        assert(crate::json::model_of(ms@[0].1) == m1);
        assert(member_models_of(ms@)[0] == (n1@, m1));
        assert(ms@[1].0@ == n2@);
        assert(crate::json::model_of(ms@[1].1) == m2);
        assert(member_models_of(ms@)[1] == (n2@, m2));
        assert(ms@[2].0@ == n3@);
        assert(crate::json::model_of(ms@[2].1) == m3);
        assert(member_models_of(ms@)[2] == (n3@, m3));
        assert(member_models_of(ms@) =~~= Seq::empty().push((n1@, m1)).push((n2@, m2)).push(
            (n3@, m3),
        ));
    }
    JsonValue::Obj(ms)
}

fn mk_obj5(
    n1: &str,
    v1: JsonValue,
    n2: &str,
    v2: JsonValue,
    n3: &str,
    v3: JsonValue,
    n4: &str,
    v4: JsonValue,
    n5: &str,
    v5: JsonValue,
) -> (r: JsonValue)
    ensures
        r@ == obj5(n1@, v1@, n2@, v2@, n3@, v3@, n4@, v4@, n5@, v5@),
{
    let ghost m1 = v1@;
    let ghost m2 = v2@;
    let ghost m3 = v3@;
    let ghost m4 = v4@;
    let ghost m5 = v5@;
    let mut ms: Vec<(String, JsonValue)> = Vec::new();
    ms.push((n1.to_owned(), v1));
    ms.push((n2.to_owned(), v2));
    ms.push((n3.to_owned(), v3));
    ms.push((n4.to_owned(), v4));
    ms.push((n5.to_owned(), v5));
    proof {
        lemma_member_models_of(ms@);
        assert(ms@[0].0@ == n1@);
        assert(crate::json::model_of(ms@[0].1) == m1);
        assert(member_models_of(ms@)[0] == (n1@, m1));
        assert(ms@[1].0@ == n2@);
        assert(crate::json::model_of(ms@[1].1) == m2);
        assert(member_models_of(ms@)[1] == (n2@, m2));
        assert(ms@[2].0@ == n3@);
        assert(crate::json::model_of(ms@[2].1) == m3);
        assert(member_models_of(ms@)[2] == (n3@, m3));
        assert(ms@[3].0@ == n4@);
        assert(crate::json::model_of(ms@[3].1) == m4);
        assert(member_models_of(ms@)[3] == (n4@, m4));
        assert(ms@[4].0@ == n5@);
        assert(crate::json::model_of(ms@[4].1) == m5);
        assert(member_models_of(ms@)[4] == (n5@, m5));
        assert(member_models_of(ms@) =~~= Seq::empty().push((n1@, m1)).push((n2@, m2)).push(
            (n3@, m3),
        ).push((n4@, m4)).push((n5@, m5)));
    }
    JsonValue::Obj(ms)
}

fn mk_arr1(v1: JsonValue) -> (r: JsonValue)
    ensures
        r@ == JsonModel::Arr(seq![v1@]),
{
    let ghost m1 = v1@;
    let mut items: Vec<JsonValue> = Vec::new();
    items.push(v1);
    proof {
        crate::json::lemma_models_of(items@);
        assert(crate::json::models_of(items@) =~~= seq![m1]);
    }
    JsonValue::Arr(items)
}

fn mk_arr2(v1: JsonValue, v2: JsonValue) -> (r: JsonValue)
    ensures
        r@ == JsonModel::Arr(Seq::empty().push(v1@).push(v2@)),
{
    let ghost m1 = v1@;
    let ghost m2 = v2@;
    let mut items: Vec<JsonValue> = Vec::new();
    items.push(v1);
    items.push(v2);
    proof {
        crate::json::lemma_models_of(items@);
        assert(crate::json::model_of(items@[0]) == m1);
        assert(crate::json::models_of(items@)[0] == m1);
        assert(crate::json::model_of(items@[1]) == m2);
        assert(crate::json::models_of(items@)[1] == m2);
        assert(crate::json::models_of(items@) =~~= Seq::empty().push(m1).push(m2));
    }
    JsonValue::Arr(items)
}

fn type_schema_value(t: &str) -> (r: JsonValue)
    ensures
        r@ == type_schema(t@),
{
    let s = jstr(t);
    mk_obj1("type", s)
}

fn ref_schema_value(t: &str) -> (r: JsonValue)
    ensures
        r@ == ref_schema(t@),
{
    let s = jstr(t);
    mk_obj1("$ref", s)
}

fn string_array_schema_value() -> (r: JsonValue)
    ensures
        r@ == string_array_schema(),
{
    mk_obj2("type", jstr("array"), "items", type_schema_value("string"))
}

/// Builds the schema document itself.
pub(crate) fn schema_document() -> (r: JsonValue)
    ensures
        r@ == schema_model(),
{
    let complex = mk_obj2(
        "type",
        jstr("object"),
        "properties",
        mk_obj2(
            "layer",
            type_schema_value("string"),
            "macro_name",
            type_schema_value("string"),
        ),
    );
    let action = mk_obj1(
        "anyOf",
        mk_arr2(type_schema_value("string"), ref_schema_value("#/definitions/ComplexAction")),
    );
    let key = mk_obj3(
        "type",
        jstr("object"),
        "properties",
        mk_obj5(
            "tap",
            ref_schema_value("#/definitions/Action"),
            "hold",
            ref_schema_value("#/definitions/Action"),
            "mods",
            string_array_schema_value(),
            "when",
            type_schema_value("string"),
            "macros",
            string_array_schema_value(),
        ),
        "required",
        mk_arr1(jstr("tap")),
    );
    let props = mk_obj5(
        "meta",
        type_schema_value("object"),
        "keys",
        mk_obj2(
            "type",
            jstr("object"),
            "additionalProperties",
            ref_schema_value("#/definitions/Key"),
        ),
        "macros",
        type_schema_value("object"),
        "conditions",
        type_schema_value("object"),
        "layers",
        string_array_schema_value(),
    );
    let defs = mk_obj3("Action", action, "ComplexAction", complex, "Key", key);
    let root = mk_obj5(
        "title",
        jstr("IR"),
        "type",
        jstr("object"),
        "properties",
        props,
        "required",
        mk_arr1(jstr("keys")),
        "definitions",
        defs,
    );
    root
}

/// Generate the structural schema for the IR document shape, rendered as
/// canonical text. Never fails; the `Result` shape mirrors the operation's
/// interface.
pub fn generate_schema() -> (r: Result<String, KeypathError>)
    ensures
        match r {
            Result::Ok(s) => s@ == render(schema_model(), Seq::empty()),
            Result::Err(_) => false,
        },
{
    let doc = schema_document();
    Ok(render_document(&doc))
}


} // verus!

//! The validator: parses raw text into an untyped document, checks it
//! structurally, extracts the typed configuration with its referential
//! invariants, and serializes configurations back to canonical text.

use vstd::prelude::*;

use crate::KeypathError;
use crate::ir::{
    Action, ActionView, ComplexAction, ComplexView, IR, IrView, Key, KeyView, contains_name,
    entries_has, opt_str_view, strs_view,
};
use crate::json::{
    JsonModel, JsonValue, clone_json, entries_view, insert_entry, insert_entry_spec, lex_lt,
    lemma_member_models_of, lemma_models_of, lookup, member_models_of, model_of, models_of,
    obj_get, render, render_document, sorted_unique,
};
use crate::schema::{schema_check, schema_document, validate_json_schema};

verus! {

broadcast use vstd::std_specs::vec::group_vec_axioms, vstd::seq::group_seq_axioms;

/// Canonical sorted form of an association sequence; a later duplicate wins.
pub open spec fn sort_entries<V>(entries: Seq<(Seq<char>, V)>) -> Seq<(Seq<char>, V)>
    decreases entries,
{
    if entries.len() == 0 {
        Seq::empty()
    } else {
        insert_entry_spec(sort_entries(entries.drop_last()), entries.last().0, entries.last().1)
    }
}

pub open spec fn opt_model(o: Option<&JsonValue>) -> Option<JsonModel> {
    match o {
        Option::Some(v) => Option::Some(v@),
        Option::None => Option::None,
    }
}

/// An optional field that must be a string when present.
pub open spec fn extract_opt_str(o: Option<JsonModel>) -> Option<Option<Seq<char>>> {
    match o {
        Option::None => Option::Some(Option::None),
        Option::Some(JsonModel::Str(s)) => Option::Some(Option::Some(s)),
        Option::Some(_) => Option::None,
    }
}

pub open spec fn strings_of(items: Seq<JsonModel>) -> Option<Seq<Seq<char>>>
    decreases items,
{
    if items.len() == 0 {
        Option::Some(Seq::empty())
    } else {
        match strings_of(items.drop_last()) {
            Option::Some(acc) => match items.last() {
                JsonModel::Str(s) => Option::Some(acc.push(s)),
                _ => Option::None,
            },
            Option::None => Option::None,
        }
    }
}

/// An optional field that must be an array of strings when present; an
/// absent field is the empty sequence.
pub open spec fn extract_strs(o: Option<JsonModel>) -> Option<Seq<Seq<char>>> {
    match o {
        Option::None => Option::Some(Seq::empty()),
        Option::Some(JsonModel::Arr(items)) => strings_of(items),
        Option::Some(_) => Option::None,
    }
}

/// An action document: a bare string, or an object with an optional `layer`
/// and an optional `macro_name`.
pub open spec fn extract_action(m: JsonModel) -> Option<ActionView> {
    match m {
        JsonModel::Str(s) => Option::Some(ActionView::Key(s)),
        JsonModel::Obj(fields) => match (
            extract_opt_str(lookup(fields, "layer"@)),
            extract_opt_str(lookup(fields, "macro_name"@)),
        ) {
            (Option::Some(l), Option::Some(mn)) => Option::Some(
                ActionView::Complex(ComplexView { layer: l, macro_name: mn }),
            ),
            _ => Option::None,
        },
        _ => Option::None,
    }
}

pub open spec fn extract_opt_action(o: Option<JsonModel>) -> Option<Option<ActionView>> {
    match o {
        Option::None => Option::Some(Option::None),
        Option::Some(m) => match extract_action(m) {
            Option::Some(a) => Option::Some(Option::Some(a)),
            Option::None => Option::None,
        },
    }
}

/// A key document: an object with a required `tap` action.
pub open spec fn extract_key(m: JsonModel) -> Option<KeyView> {
    match m {
        JsonModel::Obj(fields) => {
            let tap = match lookup(fields, "tap"@) {
                Option::Some(t) => extract_action(t),
                Option::None => Option::None,
            };
            match (
                tap,
                extract_opt_action(lookup(fields, "hold"@)),
                extract_strs(lookup(fields, "mods"@)),
                extract_opt_str(lookup(fields, "when"@)),
                extract_strs(lookup(fields, "macros"@)),
            ) {
                (
                    Option::Some(t),
                    Option::Some(h),
                    Option::Some(mo),
                    Option::Some(w),
                    Option::Some(ma),
                ) => Option::Some(KeyView { tap: t, hold: h, mods: mo, when: w, macros: ma }),
                _ => Option::None,
            }
        },
        _ => Option::None,
    }
}

/// The key map: every entry extracted, held sorted; a later duplicate wins.
pub open spec fn extract_keys(ms: Seq<(Seq<char>, JsonModel)>) -> Option<
    Seq<(Seq<char>, KeyView)>,
>
    decreases ms,
{
    if ms.len() == 0 {
        Option::Some(Seq::empty())
    } else {
        match extract_keys(ms.drop_last()) {
            Option::Some(acc) => match extract_key(ms.last().1) {
                Option::Some(k) => Option::Some(insert_entry_spec(acc, ms.last().0, k)),
                Option::None => Option::None,
            },
            Option::None => Option::None,
        }
    }
}

/// An opaque name-keyed map (`macros`, `conditions`): an object whose values
/// pass through unexamined; an absent field is the empty map.
pub open spec fn extract_opaque(o: Option<JsonModel>) -> Option<Seq<(Seq<char>, JsonModel)>> {
    match o {
        Option::None => Option::Some(Seq::empty()),
        Option::Some(JsonModel::Obj(ms)) => Option::Some(sort_entries(ms)),
        Option::Some(_) => Option::None,
    }
}

pub open spec fn extract_meta(o: Option<JsonModel>) -> Option<
    Option<Seq<(Seq<char>, JsonModel)>>,
> {
    match o {
        Option::None => Option::Some(Option::None),
        Option::Some(JsonModel::Obj(ms)) => Option::Some(Option::Some(sort_entries(ms))),
        Option::Some(_) => Option::None,
    }
}

/// Structural extraction of the typed configuration from a document,
/// before the referential checks.
pub open spec fn extract_structure(m: JsonModel) -> Option<IrView> {
    match m {
        JsonModel::Obj(members) => {
            let keys = match lookup(members, "keys"@) {
                Option::Some(JsonModel::Obj(ms)) => extract_keys(ms),
                _ => Option::None,
            };
            match (
                extract_meta(lookup(members, "meta"@)),
                keys,
                extract_opaque(lookup(members, "macros"@)),
                extract_opaque(lookup(members, "conditions"@)),
                extract_strs(lookup(members, "layers"@)),
            ) {
                (
                    Option::Some(me),
                    Option::Some(ks),
                    Option::Some(mac),
                    Option::Some(co),
                    Option::Some(la),
                ) => Option::Some(
                    (IrView { meta: me, keys: ks, macros: mac, conditions: co, layers: la }),
                ),
                _ => Option::None,
            }
        },
        _ => Option::None,
    }
}

/// Full typed extraction: structure plus the referential invariants.
pub open spec fn extract_ir(m: JsonModel) -> Option<IrView> {
    match extract_structure(m) {
        Option::Some(v) => if v.actions_wf() && v.refs_ok() {
            Option::Some(v)
        } else {
            Option::None
        },
        Option::None => Option::None,
    }
}

proof fn lemma_strings_of_prefix_none(s: Seq<JsonModel>, k: int)
    requires
        0 <= k <= s.len(),
        strings_of(s.take(k)) is None,
    ensures
        strings_of(s) is None,
    decreases s.len() - k,
{
    if k < s.len() {
        assert(s.take(k + 1).drop_last() =~= s.take(k));
        lemma_strings_of_prefix_none(s, k + 1);
    } else {
        assert(s.take(k) =~= s);
    }
}

proof fn lemma_extract_keys_prefix_none(s: Seq<(Seq<char>, JsonModel)>, k: int)
    requires
        0 <= k <= s.len(),
        extract_keys(s.take(k)) is None,
    ensures
        extract_keys(s) is None,
    decreases s.len() - k,
{
    if k < s.len() {
        assert(s.take(k + 1).drop_last() =~= s.take(k));
        lemma_extract_keys_prefix_none(s, k + 1);
    } else {
        assert(s.take(k) =~= s);
    }
}

fn extract_opt_str_exec(o: Option<&JsonValue>) -> (r: Option<Option<String>>)
    ensures
        match r {
            Option::Some(s) => extract_opt_str(opt_model(o)) == Option::Some(opt_str_view(s)),
            Option::None => extract_opt_str(opt_model(o)) is None,
        },
{
    match o {
        None => Some(None),
        Some(JsonValue::Str(s)) => Some(Some(s.clone())),
        Some(_) => None,
    }
}

#[verifier::loop_isolation(false)]
fn extract_strs_exec(o: Option<&JsonValue>) -> (r: Option<Vec<String>>)
    ensures
        match r {
            Option::Some(ss) => extract_strs(opt_model(o)) == Option::Some(strs_view(ss@)),
            Option::None => extract_strs(opt_model(o)) is None,
        },
{
    match o {
        None => {
            let v: Vec<String> = Vec::new();
            proof {
                assert(strs_view(v@) =~= Seq::<Seq<char>>::empty());
            }
            Some(v)
        },
        Some(JsonValue::Arr(items)) => {
            let ghost models = models_of(items@);
            proof {
                lemma_models_of(items@);
            }
            let n = items.len();
            let mut acc: Vec<String> = Vec::new();
            let mut i: usize = 0;
            proof {
                assert(models.take(0) =~= Seq::<JsonModel>::empty());
                assert(strs_view(acc@) =~= Seq::<Seq<char>>::empty());
            }
            while i < n
                invariant
                    i <= n,
                    n == items@.len(),
                    models == models_of(items@),
                    models.len() == n,
                    forall|k: int| 0 <= k < n ==> models[k] == model_of(#[trigger] items@[k]),
                    strings_of(models.take(i as int)) == Option::Some(strs_view(acc@)),
                decreases n - i,
            {
                proof {
                    assert(models.take(i + 1).drop_last() =~= models.take(i as int));
                    assert(models.take(i + 1).last() == models[i as int]);
                }
                match &items[i] {
                    JsonValue::Str(s) => {
                        let ghost prev = acc@;
                        let c = s.clone();
                        let ghost cs = c@;
                        acc.push(c);
                        i = i + 1;
                        proof {
                            assert(strs_view(acc@) =~= strs_view(prev).push(cs));
                        }
                    },
                    _ => {
                        proof {
                            assert(strings_of(models.take(i + 1)) is None);
                            lemma_strings_of_prefix_none(models, i + 1);
                        }
                        return None;
                    },
                }
            }
            proof {
                assert(models.take(n as int) =~= models);
            }
            Some(acc)
        },
        Some(_) => None,
    }
}

fn extract_action_exec(m: &JsonValue) -> (r: Option<Action>)
    ensures
        match r {
            Option::Some(a) => extract_action(m@) == Option::Some(a@),
            Option::None => extract_action(m@) is None,
        },
{
    match m {
        JsonValue::Str(s) => Some(Action::Key(s.clone())),
        JsonValue::Obj(fields) => {
            let layer = match extract_opt_str_exec(obj_get(fields, "layer")) {
                Some(l) => l,
                None => {
                    return None;
                },
            };
            let macro_name = match extract_opt_str_exec(obj_get(fields, "macro_name")) {
                Some(mn) => mn,
                None => {
                    return None;
                },
            };
            Some(Action::Complex(ComplexAction { layer, macro_name }))
        },
        _ => None,
    }
}

fn extract_key_exec(m: &JsonValue) -> (r: Option<Key>)
    ensures
        match r {
            Option::Some(k) => extract_key(m@) == Option::Some(k@),
            Option::None => extract_key(m@) is None,
        },
{
    match m {
        JsonValue::Obj(fields) => {
            let tap = match obj_get(fields, "tap") {
                Some(t) => match extract_action_exec(t) {
                    Some(a) => a,
                    None => {
                        return None;
                    },
                },
                None => {
                    return None;
                },
            };
            let hold = match obj_get(fields, "hold") {
                None => None,
                Some(h) => match extract_action_exec(h) {
                    Some(a) => Some(a),
                    None => {
                        return None;
                    },
                },
            };
            let mods = match extract_strs_exec(obj_get(fields, "mods")) {
                Some(v) => v,
                None => {
                    return None;
                },
            };
            let when = match extract_opt_str_exec(obj_get(fields, "when")) {
                Some(w) => w,
                None => {
                    return None;
                },
            };
            let macros = match extract_strs_exec(obj_get(fields, "macros")) {
                Some(v) => v,
                None => {
                    return None;
                },
            };
            Some(Key { tap, hold, mods, when, macros })
        },
        _ => None,
    }
}

#[verifier::loop_isolation(false)]
fn extract_keys_exec(entries: &Vec<(String, JsonValue)>) -> (r: Option<Vec<(String, Key)>>)
    ensures
        match r {
            Option::Some(ks) => extract_keys(member_models_of(entries@)) == Option::Some(
                entries_view(ks@),
            ),
            Option::None => extract_keys(member_models_of(entries@)) is None,
        },
{
    let ghost mm = member_models_of(entries@);
    proof {
        lemma_member_models_of(entries@);
    }
    let n = entries.len();
    let mut acc: Vec<(String, Key)> = Vec::new();
    let mut i: usize = 0;
    proof {
        assert(mm.take(0) =~= Seq::<(Seq<char>, JsonModel)>::empty());
        assert(entries_view(acc@) =~= Seq::<(Seq<char>, KeyView)>::empty());
    }
    while i < n
        invariant
            i <= n,
            n == entries@.len(),
            mm == member_models_of(entries@),
            mm.len() == n,
            forall|k: int|
                0 <= k < n ==> mm[k] == ((#[trigger] entries@[k]).0@, model_of(entries@[k].1)),
            extract_keys(mm.take(i as int)) == Option::Some(entries_view(acc@)),
        decreases n - i,
    {
        proof {
            assert(mm.take(i + 1).drop_last() =~= mm.take(i as int));
            assert(mm.take(i + 1).last() == mm[i as int]);
        }
        match extract_key_exec(&entries[i].1) {
            Some(k) => {
                insert_entry(&mut acc, entries[i].0.clone(), k);
                i = i + 1;
            },
            None => {
                proof {
                    assert(extract_keys(mm.take(i + 1)) is None);
                    lemma_extract_keys_prefix_none(mm, i + 1);
                }
                return None;
            },
        }
    }
    proof {
        assert(mm.take(n as int) =~= mm);
    }
    Some(acc)
}

/// Extracts an opaque object's members into canonical sorted form.
fn extract_sorted_members(entries: &Vec<(String, JsonValue)>) -> (r: Vec<(String, JsonValue)>)
    ensures
        entries_view(r@) == sort_entries(member_models_of(entries@)),
{
    let ghost mm = member_models_of(entries@);
    proof {
        lemma_member_models_of(entries@);
    }
    let n = entries.len();
    let mut acc: Vec<(String, JsonValue)> = Vec::new();
    let mut i: usize = 0;
    proof {
        assert(mm.take(0) =~= Seq::<(Seq<char>, JsonModel)>::empty());
        assert(entries_view(acc@) =~= Seq::<(Seq<char>, JsonModel)>::empty());
    }
    while i < n
        invariant
            i <= n,
            n == entries@.len(),
            mm == member_models_of(entries@),
            mm.len() == n,
            forall|k: int|
                0 <= k < n ==> mm[k] == ((#[trigger] entries@[k]).0@, model_of(entries@[k].1)),
            entries_view(acc@) == sort_entries(mm.take(i as int)),
        decreases n - i,
    {
        proof {
            assert(mm.take(i + 1).drop_last() =~= mm.take(i as int));
            assert(mm.take(i + 1).last() == mm[i as int]);
        }
        let value = clone_json(&entries[i].1);
        insert_entry(&mut acc, entries[i].0.clone(), value);
        i = i + 1;
    }
    proof {
        assert(mm.take(n as int) =~= mm);
    }
    acc
}

/// Checks the referential invariants of an extracted configuration.
#[verifier::loop_isolation(false)]
fn check_valid(ir: &IR) -> (r: bool)
    ensures
        r == (ir@.actions_wf() && ir@.refs_ok()),
{
    let ghost v = ir@;
    let nkeys = ir.keys.len();
    let mut i: usize = 0;
    while i < nkeys
        invariant
            i <= nkeys,
            forall|k: int|
                0 <= k < i ==> (#[trigger] v.keys[k]).1.actions_wf() && v.keys[k].1.refs_ok(v),
        decreases nkeys - i,
    {
        let key = &ir.keys[i].1;
        if !check_action_valid(&key.tap, ir) {
            proof {
                assert(!(v.actions_wf() && v.refs_ok())) by {
                    if v.actions_wf() && v.refs_ok() {
                        assert(v.keys[i as int].1.actions_wf());
                        assert(v.keys[i as int].1.refs_ok(v));
                    }
                }
            }
            return false;
        }
        if let Some(h) = &key.hold {
            if !check_action_valid(h, ir) {
                proof {
                    assert(!(v.actions_wf() && v.refs_ok())) by {
                        if v.actions_wf() && v.refs_ok() {
                            assert(v.keys[i as int].1.actions_wf());
                            assert(v.keys[i as int].1.refs_ok(v));
                        }
                    }
                }
                return false;
            }
        }
        if let Some(w) = &key.when {
            if !entries_has(&ir.conditions, w.as_str()) {
                proof {
                    assert(!v.refs_ok()) by {
                        if v.refs_ok() {
                            assert(v.keys[i as int].1.refs_ok(v));
                        }
                    }
                }
                return false;
            }
        }
        let nm = key.macros.len();
        let mut j: usize = 0;
        while j < nm
            invariant
                j <= nm,
                nm == key.macros@.len(),
                key == &ir.keys[i as int].1,
                i < nkeys,
                forall|q: int|
                    0 <= q < j ==> crate::json::has_name(
                        v.macros,
                        #[trigger] v.keys[i as int].1.macros[q],
                    ),
            decreases nm - j,
        {
            if !entries_has(&ir.macros, key.macros[j].as_str()) {
                proof {
                    assert(!v.refs_ok()) by {
                        if v.refs_ok() {
                            assert(v.keys[i as int].1.refs_ok(v));
                            assert(crate::json::has_name(
                                v.macros,
                                v.keys[i as int].1.macros[j as int],
                            ));
                        }
                    }
                }
                return false;
            }
            j = j + 1;
        }
        proof {
            assert(v.keys[i as int].1.refs_ok(v));
        }
        i = i + 1;
    }
    true
}

/// Checks one action's well-formedness and references.
fn check_action_valid(a: &Action, ir: &IR) -> (r: bool)
    ensures
        r == (a@.wf() && a@.refs_ok(ir@.layers, ir@.macros)),
{
    match a {
        Action::Key(_) => true,
        Action::Complex(c) => {
            match (&c.layer, &c.macro_name) {
                (Some(_), Some(_)) => false,
                (None, None) => false,
                (Some(l), None) => crate::json::str_eq(l.as_str(), "base") || contains_name(
                    &ir.layers,
                    l.as_str(),
                ),
                (None, Some(m)) => entries_has(&ir.macros, m.as_str()),
            }
        },
    }
}

/// Structural extraction, mirroring `extract_structure`.
fn extract_structure_exec(doc: &JsonValue) -> (r: Option<IR>)
    ensures
        match r {
            Option::Some(ir) => extract_structure(doc@) == Option::Some(ir@),
            Option::None => extract_structure(doc@) is None,
        },
{
    match doc {
        JsonValue::Obj(members) => {
            let keys = match obj_get(members, "keys") {
                Some(JsonValue::Obj(ms)) => match extract_keys_exec(ms) {
                    Some(ks) => ks,
                    None => {
                        return None;
                    },
                },
                _ => {
                    return None;
                },
            };
            let meta = match obj_get(members, "meta") {
                None => None,
                Some(JsonValue::Obj(ms)) => Some(extract_sorted_members(ms)),
                Some(_) => {
                    return None;
                },
            };
            let macros = match obj_get(members, "macros") {
                None => {
                    let v: Vec<(String, JsonValue)> = Vec::new();
                    proof {
                        assert(entries_view(v@) =~= Seq::<(Seq<char>, JsonModel)>::empty());
                    }
                    v
                },
                Some(JsonValue::Obj(ms)) => extract_sorted_members(ms),
                Some(_) => {
                    return None;
                },
            };
            let conditions = match obj_get(members, "conditions") {
                None => {
                    let v: Vec<(String, JsonValue)> = Vec::new();
                    proof {
                        assert(entries_view(v@) =~= Seq::<(Seq<char>, JsonModel)>::empty());
                    }
                    v
                },
                Some(JsonValue::Obj(ms)) => extract_sorted_members(ms),
                Some(_) => {
                    return None;
                },
            };
            let layers = match extract_strs_exec(obj_get(members, "layers")) {
                Some(v) => v,
                None => {
                    return None;
                },
            };
            Some(IR { meta, keys, macros, conditions, layers })
        },
        _ => None,
    }
}

/// Full typed extraction, mirroring `extract_ir`.
fn extract_ir_exec(doc: &JsonValue) -> (r: Option<IR>)
    ensures
        match r {
            Option::Some(ir) => extract_ir(doc@) == Option::Some(ir@),
            Option::None => extract_ir(doc@) is None,
        },
{
    match extract_structure_exec(doc) {
        Some(ir) => {
            if check_valid(&ir) {
                Some(ir)
            } else {
                None
            }
        },
        None => None,
    }
}

#[verifier::external_type_specification]
#[verifier::external_body]
pub struct ExSerdeValue(serde_json::Value);

/// Relies on the variants of `serde_json::Value`: rebuilds the parsed tree
/// as the library's document values, one arm per variant, keeping each
/// number's rendered spelling. Recurses through `serde_json`'s own
/// collections.
#[verifier::external_body]
fn convert_value(v: serde_json::Value) -> JsonValue {
    match v {
        serde_json::Value::Null => JsonValue::Null,
        serde_json::Value::Bool(b) => JsonValue::Bool(b),
        serde_json::Value::Number(n) => JsonValue::Num(n.to_string()),
        serde_json::Value::String(s) => JsonValue::Str(s),
        serde_json::Value::Array(a) => JsonValue::Arr(a.into_iter().map(convert_value).collect()),
        serde_json::Value::Object(m) => JsonValue::Obj(
            m.into_iter().map(|(k, val)| (k, convert_value(val))).collect(),
        ),
    }
}

/// What `serde_json` parses a text to, seen as the library's document model.
pub uninterp spec fn parsed_doc(s: Seq<char>) -> Option<JsonModel>;

/// Relies on `serde_json::from_str::<serde_json::Value>`: parsing is a pure
/// function of the text alone; its result, rebuilt by `convert_value`, is
/// the document named `parsed_doc`. A failure carries `serde_json`'s own
/// message, of which nothing is claimed.
#[verifier::external_body]
fn parse_json_text(s: &str) -> (r: Result<JsonValue, String>)
    ensures
        match r {
            Result::Ok(v) => parsed_doc(s@) == Option::Some(v@),
            Result::Err(_) => parsed_doc(s@) is None,
        },
{
    match serde_json::from_str::<serde_json::Value>(s) {
        Ok(v) => Ok(convert_value(v)),
        Err(e) => Err(e.to_string()),
    }
}

/// Parse and validate a configuration from text.
///
/// Succeeds exactly when the text parses, conforms structurally, and
/// extracts to a typed configuration whose references resolve; the result is
/// then that configuration, well formed. A malformed text or a failed
/// extraction is an `InvalidIR` error; a structural violation is a
/// `SchemaValidation` error carrying the exact message of the check.
pub fn parse_ir(json: &str) -> (r: Result<IR, KeypathError>)
    ensures
        match parsed_doc(json@) {
            Option::None => r matches Result::Err(KeypathError::InvalidIR(_)),
            Option::Some(d) => match schema_check(d) {
                Option::Some(msg) => match r {
                    Result::Err(KeypathError::SchemaValidation(m)) => m@ == msg,
                    _ => false,
                },
                Option::None => match extract_ir(d) {
                    Option::Some(v) => r matches Result::Ok(ir) && ir@ == v,
                    Option::None => r matches Result::Err(KeypathError::InvalidIR(_)),
                },
            },
        },
        r matches Result::Ok(ir) ==> ir@.wf(),
{
    let doc = match parse_json_text(json) {
        Ok(d) => d,
        Err(e) => {
            let mut m = "JSON parse error: ".to_owned();
            m.append(e.as_str());
            return Err(KeypathError::InvalidIR(m));
        },
    };
    let schema = schema_document();
    match validate_json_schema(&doc, &schema) {
        Err(m) => {
            return Err(KeypathError::SchemaValidation(m));
        },
        Ok(_) => {},
    }
    proof {
        lemma_extract_ir_wf(doc@);
    }
    match extract_ir_exec(&doc) {
        Some(ir) => Ok(ir),
        None => Err(
            KeypathError::InvalidIR(
                "IR deserialization error: document does not fit the typed model".to_owned(),
            ),
        ),
    }
}

/// Typed deserialization without the structural schema pass, as the
/// foreign-function boundary uses it; the typed checks still run.
pub fn ir_from_json(json: &str) -> (r: Result<IR, KeypathError>)
    ensures
        match parsed_doc(json@) {
            Option::None => r matches Result::Err(KeypathError::InvalidIR(_)),
            Option::Some(d) => match extract_ir(d) {
                Option::Some(v) => r matches Result::Ok(ir) && ir@ == v,
                Option::None => r matches Result::Err(KeypathError::InvalidIR(_)),
            },
        },
        r matches Result::Ok(ir) ==> ir@.wf(),
{
    let doc = match parse_json_text(json) {
        Ok(d) => d,
        Err(e) => {
            let mut m = "JSON parse error: ".to_owned();
            m.append(e.as_str());
            return Err(KeypathError::InvalidIR(m));
        },
    };
    proof {
        lemma_extract_ir_wf(doc@);
    }
    match extract_ir_exec(&doc) {
        Some(ir) => Ok(ir),
        None => Err(
            KeypathError::InvalidIR(
                "IR deserialization error: document does not fit the typed model".to_owned(),
            ),
        ),
    }
}

/// The canonical document of one action.
pub open spec fn action_doc(a: ActionView) -> JsonModel {
    match a {
        ActionView::Key(s) => JsonModel::Str(s),
        ActionView::Complex(c) => JsonModel::Obj(
            (match c.layer {
                Option::Some(l) => seq![("layer"@, JsonModel::Str(l))],
                Option::None => Seq::empty(),
            }) + (match c.macro_name {
                Option::Some(m) => seq![("macro_name"@, JsonModel::Str(m))],
                Option::None => Seq::empty(),
            }),
        ),
    }
}

pub open spec fn strs_doc(ss: Seq<Seq<char>>) -> Seq<JsonModel> {
    Seq::new(ss.len(), |i: int| JsonModel::Str(ss[i]))
}

/// The canonical document of one key; empty or absent fields are skipped.
pub open spec fn key_doc(k: KeyView) -> JsonModel {
    JsonModel::Obj(
        seq![("tap"@, action_doc(k.tap))] + (match k.hold {
            Option::Some(h) => seq![("hold"@, action_doc(h))],
            Option::None => Seq::empty(),
        }) + (if k.mods.len() > 0 {
            seq![("mods"@, JsonModel::Arr(strs_doc(k.mods)))]
        } else {
            Seq::empty()
        }) + (match k.when {
            Option::Some(w) => seq![("when"@, JsonModel::Str(w))],
            Option::None => Seq::empty(),
        }) + (if k.macros.len() > 0 {
            seq![("macros"@, JsonModel::Arr(strs_doc(k.macros)))]
        } else {
            Seq::empty()
        }),
    )
}

pub open spec fn keys_doc(ks: Seq<(Seq<char>, KeyView)>) -> Seq<(Seq<char>, JsonModel)> {
    Seq::new(ks.len(), |i: int| (ks[i].0, key_doc(ks[i].1)))
}

/// The canonical document of a configuration: fields in the order
/// `meta`, `keys`, `macros`, `conditions`, `layers`, the empty ones skipped.
pub open spec fn ir_doc(v: IrView) -> JsonModel {
    JsonModel::Obj(
        (match v.meta {
            Option::Some(m) => seq![("meta"@, JsonModel::Obj(m))],
            Option::None => Seq::empty(),
        }) + seq![("keys"@, JsonModel::Obj(keys_doc(v.keys)))] + (if v.macros.len() > 0 {
            seq![("macros"@, JsonModel::Obj(v.macros))]
        } else {
            Seq::empty()
        }) + (if v.conditions.len() > 0 {
            seq![("conditions"@, JsonModel::Obj(v.conditions))]
        } else {
            Seq::empty()
        }) + (if v.layers.len() > 0 {
            seq![("layers"@, JsonModel::Arr(strs_doc(v.layers)))]
        } else {
            Seq::empty()
        }),
    )
}

fn strs_doc_exec(ss: &Vec<String>) -> (r: Vec<JsonValue>)
    ensures
        models_of(r@) == strs_doc(strs_view(ss@)),
{
    let n = ss.len();
    let mut acc: Vec<JsonValue> = Vec::new();
    let mut i: usize = 0;
    proof {
        assert(models_of(acc@) =~= strs_doc(strs_view(ss@)).take(0));
    }
    while i < n
        invariant
            i <= n,
            n == ss@.len(),
            models_of(acc@) == strs_doc(strs_view(ss@)).take(i as int),
        decreases n - i,
    {
        let ghost prev = acc@;
        acc.push(JsonValue::Str(ss[i].clone()));
        i = i + 1;
        proof {
            assert(acc@.drop_last() =~= prev);
            assert(models_of(acc@) =~= models_of(prev).push(model_of(acc@.last())));
            assert(strs_doc(strs_view(ss@)).take(i as int).drop_last() =~= strs_doc(
                strs_view(ss@),
            ).take(i - 1));
            assert(models_of(acc@) =~= strs_doc(strs_view(ss@)).take(i as int));
        }
    }
    proof {
        assert(strs_doc(strs_view(ss@)).take(n as int) =~= strs_doc(strs_view(ss@)));
    }
    acc
}

fn action_doc_exec(a: &Action) -> (r: JsonValue)
    ensures
        r@ == action_doc(a@),
{
    match a {
        Action::Key(s) => JsonValue::Str(s.clone()),
        Action::Complex(c) => {
            let mut ms: Vec<(String, JsonValue)> = Vec::new();
            let ghost mut g: Seq<(Seq<char>, JsonModel)> = Seq::empty();
            proof {
                assert(member_models_of(ms@) =~= g);
            }
            if let Some(l) = &c.layer {
                let ghost prev = ms@;
                ms.push(("layer".to_owned(), JsonValue::Str(l.clone())));
                proof {
                    assert(ms@.drop_last() =~= prev);
                    g = g + seq![("layer"@, JsonModel::Str(l@))];
                    assert(ms@.last().0@ == "layer"@);
                    assert(model_of(ms@.last().1) == (JsonModel::Str(l@)));
                    assert(member_models_of(ms@) =~= g);
                }
            }
            if let Some(m) = &c.macro_name {
                let ghost prev = ms@;
                ms.push(("macro_name".to_owned(), JsonValue::Str(m.clone())));
                proof {
                    assert(ms@.drop_last() =~= prev);
                    g = g + seq![("macro_name"@, JsonModel::Str(m@))];
                    assert(ms@.last().0@ == "macro_name"@);
                    assert(model_of(ms@.last().1) == (JsonModel::Str(m@)));
                    assert(member_models_of(ms@) =~= g);
                }
            }
            proof {
                assert(g =~= (match a@ {
                    ActionView::Complex(cv) => (match cv.layer {
                        Option::Some(l) => seq![("layer"@, JsonModel::Str(l))],
                        Option::None => Seq::empty(),
                    }) + (match cv.macro_name {
                        Option::Some(m) => seq![("macro_name"@, JsonModel::Str(m))],
                        Option::None => Seq::empty(),
                    }),
                    _ => Seq::empty(),
                }));
            }
            JsonValue::Obj(ms)
        },
    }
}

fn key_doc_exec(k: &Key) -> (r: JsonValue)
    ensures
        r@ == key_doc(k@),
{
    let ghost kv = k@;
    let mut ms: Vec<(String, JsonValue)> = Vec::new();
    let tap = action_doc_exec(&k.tap);
    let ghost mut g: Seq<(Seq<char>, JsonModel)> = seq![("tap"@, action_doc(kv.tap))];
    ms.push(("tap".to_owned(), tap));
    proof {
        assert(ms@.drop_last() =~= Seq::<(String, JsonValue)>::empty());
        assert(member_models_of(Seq::<(String, JsonValue)>::empty()) =~= Seq::<
            (Seq<char>, JsonModel),
        >::empty());
        assert(ms@.last().0@ == "tap"@);
        assert(model_of(ms@.last().1) == action_doc(kv.tap));
        assert(member_models_of(ms@) =~= g);
    }
    if let Some(h) = &k.hold {
        let hv = action_doc_exec(h);
        let ghost prev = ms@;
        ms.push(("hold".to_owned(), hv));
        proof {
            assert(ms@.drop_last() =~= prev);
            g = g + seq![("hold"@, action_doc(kv.hold->0))];
            assert(ms@.last().0@ == "hold"@);
            assert(model_of(ms@.last().1) == (action_doc(kv.hold->0)));
            assert(member_models_of(ms@) =~= g);
        }
    }
    if k.mods.len() > 0 {
        let mv = strs_doc_exec(&k.mods);
        let ghost prev = ms@;
        ms.push(("mods".to_owned(), JsonValue::Arr(mv)));
        proof {
            assert(ms@.drop_last() =~= prev);
            g = g + seq![("mods"@, JsonModel::Arr(strs_doc(kv.mods)))];
            assert(ms@.last().0@ == "mods"@);
            assert(model_of(ms@.last().1) == (JsonModel::Arr(strs_doc(kv.mods))));
            assert(member_models_of(ms@) =~= g);
        }
    }
    if let Some(w) = &k.when {
        let ghost prev = ms@;
        ms.push(("when".to_owned(), JsonValue::Str(w.clone())));
        proof {
            assert(ms@.drop_last() =~= prev);
            g = g + seq![("when"@, JsonModel::Str(w@))];
            assert(ms@.last().0@ == "when"@);
            assert(model_of(ms@.last().1) == (JsonModel::Str(w@)));
            assert(member_models_of(ms@) =~= g);
        }
    }
    if k.macros.len() > 0 {
        let mv = strs_doc_exec(&k.macros);
        let ghost prev = ms@;
        ms.push(("macros".to_owned(), JsonValue::Arr(mv)));
        proof {
            assert(ms@.drop_last() =~= prev);
            g = g + seq![("macros"@, JsonModel::Arr(strs_doc(kv.macros)))];
            assert(ms@.last().0@ == "macros"@);
            assert(model_of(ms@.last().1) == (JsonModel::Arr(strs_doc(kv.macros))));
            assert(member_models_of(ms@) =~= g);
        }
    }
    proof {
        assert(kv.mods.len() == 0 ==> strs_view(k.mods@) =~= kv.mods);
        assert(g =~= seq![("tap"@, action_doc(kv.tap))] + (match kv.hold {
            Option::Some(h) => seq![("hold"@, action_doc(h))],
            Option::None => Seq::empty(),
        }) + (if kv.mods.len() > 0 {
            seq![("mods"@, JsonModel::Arr(strs_doc(kv.mods)))]
        } else {
            Seq::empty()
        }) + (match kv.when {
            Option::Some(w) => seq![("when"@, JsonModel::Str(w))],
            Option::None => Seq::empty(),
        }) + (if kv.macros.len() > 0 {
            seq![("macros"@, JsonModel::Arr(strs_doc(kv.macros)))]
        } else {
            Seq::empty()
        }));
    }
    JsonValue::Obj(ms)
}

/// Builds the canonical document of a configuration.
pub(crate) fn build_doc(ir: &IR) -> (r: JsonValue)
    ensures
        r@ == ir_doc(ir@),
{
    let ghost v = ir@;
    let mut ms: Vec<(String, JsonValue)> = Vec::new();
    let ghost mut g: Seq<(Seq<char>, JsonModel)> = Seq::empty();
    proof {
        assert(member_models_of(ms@) =~= g);
    }
    if let Some(meta) = &ir.meta {
        let mv = clone_members(meta);
        let ghost prev = ms@;
        ms.push(("meta".to_owned(), JsonValue::Obj(mv)));
        proof {
            assert(ms@.drop_last() =~= prev);
            g = g + seq![("meta"@, JsonModel::Obj(entries_view(meta@)))];
            assert(ms@.last().0@ == "meta"@);
            assert(model_of(ms@.last().1) == (JsonModel::Obj(entries_view(meta@))));
            assert(member_models_of(ms@) =~= g);
        }
    }
    let nkeys = ir.keys.len();
    let mut kms: Vec<(String, JsonValue)> = Vec::new();
    let mut i: usize = 0;
    proof {
        assert(member_models_of(kms@) =~= keys_doc(v.keys).take(0));
    }
    while i < nkeys
        invariant
            i <= nkeys,
            nkeys == ir.keys@.len(),
            v == ir@,
            member_models_of(kms@) == keys_doc(v.keys).take(i as int),
        decreases nkeys - i,
    {
        let kd = key_doc_exec(&ir.keys[i].1);
        let ghost prev = kms@;
        kms.push((ir.keys[i].0.clone(), kd));
        i = i + 1;
        proof {
            assert(kms@.drop_last() =~= prev);
            assert(keys_doc(v.keys).take(i as int).drop_last() =~= keys_doc(v.keys).take(i - 1));
            assert(keys_doc(v.keys).take(i as int).last() == (v.keys[i - 1].0, key_doc(
                v.keys[i - 1].1,
            )));
            assert(member_models_of(kms@) =~= keys_doc(v.keys).take(i as int));
        }
    }
    proof {
        assert(keys_doc(v.keys).take(nkeys as int) =~= keys_doc(v.keys));
    }
    let ghost prev = ms@;
    ms.push(("keys".to_owned(), JsonValue::Obj(kms)));
    proof {
        assert(ms@.drop_last() =~= prev);
        g = g + seq![("keys"@, JsonModel::Obj(keys_doc(v.keys)))];
        assert(ms@.last().0@ == "keys"@);
        assert(model_of(ms@.last().1) == (JsonModel::Obj(keys_doc(v.keys))));
        assert(member_models_of(ms@) =~= g);
    }
    if ir.macros.len() > 0 {
        let mv = clone_members(&ir.macros);
        let ghost prev = ms@;
        ms.push(("macros".to_owned(), JsonValue::Obj(mv)));
        proof {
            assert(ms@.drop_last() =~= prev);
            g = g + seq![("macros"@, JsonModel::Obj(v.macros))];
            assert(ms@.last().0@ == "macros"@);
            assert(model_of(ms@.last().1) == (JsonModel::Obj(v.macros)));
            assert(member_models_of(ms@) =~= g);
        }
    }
    if ir.conditions.len() > 0 {
        let mv = clone_members(&ir.conditions);
        let ghost prev = ms@;
        ms.push(("conditions".to_owned(), JsonValue::Obj(mv)));
        proof {
            assert(ms@.drop_last() =~= prev);
            g = g + seq![("conditions"@, JsonModel::Obj(v.conditions))];
            assert(ms@.last().0@ == "conditions"@);
            assert(model_of(ms@.last().1) == (JsonModel::Obj(v.conditions)));
            assert(member_models_of(ms@) =~= g);
        }
    }
    if ir.layers.len() > 0 {
        let lv = strs_doc_exec(&ir.layers);
        let ghost prev = ms@;
        ms.push(("layers".to_owned(), JsonValue::Arr(lv)));
        proof {
            assert(ms@.drop_last() =~= prev);
            g = g + seq![("layers"@, JsonModel::Arr(strs_doc(v.layers)))];
            assert(ms@.last().0@ == "layers"@);
            assert(model_of(ms@.last().1) == (JsonModel::Arr(strs_doc(v.layers))));
            assert(member_models_of(ms@) =~= g);
        }
    }
    proof {
        assert(v.macros.len() == 0 ==> entries_view(ir.macros@) =~= v.macros);
        assert(g =~= (match v.meta {
            Option::Some(m) => seq![("meta"@, JsonModel::Obj(m))],
            Option::None => Seq::empty(),
        }) + seq![("keys"@, JsonModel::Obj(keys_doc(v.keys)))] + (if v.macros.len() > 0 {
            seq![("macros"@, JsonModel::Obj(v.macros))]
        } else {
            Seq::empty()
        }) + (if v.conditions.len() > 0 {
            seq![("conditions"@, JsonModel::Obj(v.conditions))]
        } else {
            Seq::empty()
        }) + (if v.layers.len() > 0 {
            seq![("layers"@, JsonModel::Arr(strs_doc(v.layers)))]
        } else {
            Seq::empty()
        }));
    }
    JsonValue::Obj(ms)
}

/// Deep copy of an association vector of opaque values.
fn clone_members(entries: &Vec<(String, JsonValue)>) -> (r: Vec<(String, JsonValue)>)
    ensures
        member_models_of(r@) == entries_view(entries@),
{
    let n = entries.len();
    let mut acc: Vec<(String, JsonValue)> = Vec::new();
    let mut i: usize = 0;
    proof {
        assert(member_models_of(acc@) =~= entries_view(entries@).take(0));
    }
    while i < n
        invariant
            i <= n,
            n == entries@.len(),
            member_models_of(acc@) == entries_view(entries@).take(i as int),
        decreases n - i,
    {
        let cv = clone_json(&entries[i].1);
        let ghost prev = acc@;
        acc.push((entries[i].0.clone(), cv));
        i = i + 1;
        proof {
            assert(acc@.drop_last() =~= prev);
            assert(entries_view(entries@).take(i as int).drop_last() =~= entries_view(
                entries@,
            ).take(i - 1));
            assert(entries_view(entries@).take(i as int).last() == (entries@[i - 1].0@,
            entries@[i - 1].1@));
            assert(member_models_of(acc@) =~= entries_view(entries@).take(i as int));
        }
    }
    proof {
        assert(entries_view(entries@).take(n as int) =~= entries_view(entries@));
    }
    acc
}

/// Serialize a configuration to canonical, indented, deterministic text.
/// Never fails; the `Result` shape mirrors the operation's interface.
pub fn to_pretty_json(ir: &IR) -> (r: Result<String, KeypathError>)
    ensures
        match r {
            Result::Ok(s) => s@ == render(ir_doc(ir@), Seq::empty()),
            Result::Err(_) => false,
        },
{
    let doc = build_doc(ir);
    Ok(render_document(&doc))
}

proof fn lemma_lookup_append<V>(a: Seq<(Seq<char>, V)>, b: Seq<(Seq<char>, V)>, name: Seq<char>)
    ensures
        lookup(a + b, name) == (match lookup(b, name) {
            Option::Some(v) => Option::Some(v),
            Option::None => lookup(a, name),
        }),
    decreases b.len(),
{
    if b.len() == 0 {
        assert(a + b =~= a);
    } else {
        assert((a + b).drop_last() =~= a + b.drop_last());
        assert((a + b).last() == b.last());
        lemma_lookup_append(a, b.drop_last(), name);
    }
}

proof fn lemma_lookup_small<V>(s: Seq<(Seq<char>, V)>, name: Seq<char>)
    requires
        s.len() <= 1,
    ensures
        lookup(s, name) == (if s.len() == 1 && s[0].0 == name {
            Option::Some(s[0].1)
        } else {
            Option::<V>::None
        }),
{
    if s.len() == 1 {
        assert(s.last() == s[0]);
        assert(s.drop_last() =~= Seq::<(Seq<char>, V)>::empty());
        assert(lookup(Seq::<(Seq<char>, V)>::empty(), name) is None);
    } else {
        assert(s =~= Seq::<(Seq<char>, V)>::empty());
    }
}

proof fn lemma_root_names_distinct()
    ensures
        "meta"@ != "keys"@,
        "meta"@ != "macros"@,
        "meta"@ != "conditions"@,
        "meta"@ != "layers"@,
        "keys"@ != "macros"@,
        "keys"@ != "conditions"@,
        "keys"@ != "layers"@,
        "macros"@ != "conditions"@,
        "macros"@ != "layers"@,
        "conditions"@ != "layers"@,
{
    reveal_strlit("meta");
    reveal_strlit("keys");
    reveal_strlit("macros");
    reveal_strlit("conditions");
    reveal_strlit("layers");
    assert("meta"@.len() == 4);
    assert("keys"@.len() == 4);
    assert("macros"@.len() == 6);
    assert("conditions"@.len() == 10);
    assert("layers"@.len() == 6);
    assert(("meta"@[0] as u32) != ("keys"@[0] as u32));
    assert(("macros"@[0] as u32) != ("layers"@[0] as u32));
}

proof fn lemma_key_names_distinct()
    ensures
        "tap"@ != "hold"@,
        "tap"@ != "mods"@,
        "tap"@ != "when"@,
        "tap"@ != "macros"@,
        "hold"@ != "mods"@,
        "hold"@ != "when"@,
        "hold"@ != "macros"@,
        "mods"@ != "when"@,
        "mods"@ != "macros"@,
        "when"@ != "macros"@,
        "layer"@ != "macro_name"@,
{
    reveal_strlit("tap");
    reveal_strlit("hold");
    reveal_strlit("mods");
    reveal_strlit("when");
    reveal_strlit("macros");
    reveal_strlit("layer");
    reveal_strlit("macro_name");
    assert("tap"@.len() == 3);
    assert("hold"@.len() == 4);
    assert("mods"@.len() == 4);
    assert("when"@.len() == 4);
    assert("macros"@.len() == 6);
    assert("layer"@.len() == 5);
    assert("macro_name"@.len() == 10);
    assert(("hold"@[0] as u32) != ("mods"@[0] as u32));
    assert(("hold"@[0] as u32) != ("when"@[0] as u32));
    assert(("mods"@[0] as u32) != ("when"@[0] as u32));
}

/// Sorted insertion of a name greater than every present name is a push.
proof fn lemma_sort_entries_identity<V>(s: Seq<(Seq<char>, V)>)
    requires
        sorted_unique(s),
    ensures
        sort_entries(s) == s,
    decreases s,
{
    if s.len() == 0 {
        assert(sort_entries(s) =~= s);
    } else {
        lemma_sort_entries_identity(s.drop_last());
        if s.len() == 1 {
            assert(sort_entries(s) =~= s);
        } else {
            assert(lex_lt(s[s.len() - 2].0, s[s.len() - 1].0));
            assert(s.drop_last().last() == s[s.len() - 2]);
            assert(sort_entries(s) == s.drop_last().push(s.last()));
            assert(s.drop_last().push(s.last()) =~= s);
        }
    }
}

/// Sorting always yields a strictly sorted sequence.
proof fn lemma_sort_entries_sorted<V>(s: Seq<(Seq<char>, V)>)
    ensures
        sorted_unique(sort_entries(s)),
    decreases s,
{
    if s.len() > 0 {
        lemma_sort_entries_sorted(s.drop_last());
        crate::ir::lemma_insert_preserves_sorted(
            sort_entries(s.drop_last()),
            s.last().0,
            s.last().1,
        );
    }
}

proof fn lemma_extract_keys_sorted(ms: Seq<(Seq<char>, JsonModel)>)
    ensures
        match extract_keys(ms) {
            Option::Some(ks) => sorted_unique(ks),
            Option::None => true,
        },
    decreases ms,
{
    if ms.len() > 0 {
        lemma_extract_keys_sorted(ms.drop_last());
        if extract_keys(ms.drop_last()) is Some && extract_key(ms.last().1) is Some {
            crate::ir::lemma_insert_preserves_sorted(
                extract_keys(ms.drop_last())->Some_0,
                ms.last().0,
                extract_key(ms.last().1)->Some_0,
            );
        }
    }
}

/// Every configuration the validator yields is well formed.
pub proof fn lemma_extract_ir_wf(m: JsonModel)
    ensures
        match extract_ir(m) {
            Option::Some(v) => v.wf(),
            Option::None => true,
        },
{
    if extract_ir(m) is Some {
        let members = m->Obj_0;
        match lookup(members, "keys"@) {
            Option::Some(JsonModel::Obj(ms)) => {
                lemma_extract_keys_sorted(ms);
            },
            _ => {},
        }
        match lookup(members, "meta"@) {
            Option::Some(JsonModel::Obj(ms)) => {
                lemma_sort_entries_sorted(ms);
            },
            _ => {},
        }
        match lookup(members, "macros"@) {
            Option::Some(JsonModel::Obj(ms)) => {
                lemma_sort_entries_sorted(ms);
            },
            _ => {},
        }
        match lookup(members, "conditions"@) {
            Option::Some(JsonModel::Obj(ms)) => {
                lemma_sort_entries_sorted(ms);
            },
            _ => {},
        }
    }
}

proof fn lemma_action_doc_inverse(a: ActionView)
    ensures
        extract_action(action_doc(a)) == Option::Some(a),
{
    lemma_key_names_distinct();
    match a {
        ActionView::Key(_) => {},
        ActionView::Complex(c) => {
            let p1: Seq<(Seq<char>, JsonModel)> = match c.layer {
                Option::Some(l) => seq![("layer"@, JsonModel::Str(l))],
                Option::None => Seq::empty(),
            };
            let p2: Seq<(Seq<char>, JsonModel)> = match c.macro_name {
                Option::Some(m) => seq![("macro_name"@, JsonModel::Str(m))],
                Option::None => Seq::empty(),
            };
            lemma_lookup_append(p1, p2, "layer"@);
            lemma_lookup_append(p1, p2, "macro_name"@);
            lemma_lookup_small(p1, "layer"@);
            lemma_lookup_small(p1, "macro_name"@);
            lemma_lookup_small(p2, "layer"@);
            lemma_lookup_small(p2, "macro_name"@);
            assert(extract_opt_str(lookup(p1 + p2, "layer"@)) == Option::Some(c.layer));
            assert(extract_opt_str(lookup(p1 + p2, "macro_name"@)) == Option::Some(c.macro_name));
            assert(a == ActionView::Complex(ComplexView { layer: c.layer, macro_name: c.macro_name }));
        },
    }
}

proof fn lemma_strings_of_strs_doc(ss: Seq<Seq<char>>)
    ensures
        strings_of(strs_doc(ss)) == Option::Some(ss),
    decreases ss.len(),
{
    if ss.len() == 0 {
        assert(strs_doc(ss).len() == 0);
        assert(strings_of(strs_doc(ss)) == Option::Some(Seq::<Seq<char>>::empty()));
        assert(ss =~= Seq::<Seq<char>>::empty());
    } else {
        lemma_strings_of_strs_doc(ss.drop_last());
        assert(strs_doc(ss).drop_last() =~= strs_doc(ss.drop_last()));
        assert(strs_doc(ss).last() == JsonModel::Str(ss.last()));
        assert(ss.drop_last().push(ss.last()) =~= ss);
    }
}

proof fn lemma_key_doc_inverse(k: KeyView)
    ensures
        extract_key(key_doc(k)) == Option::Some(k),
        entry_issue_none(key_doc(k)),
{
    lemma_key_names_distinct();
    let p1: Seq<(Seq<char>, JsonModel)> = seq![("tap"@, action_doc(k.tap))];
    let p2: Seq<(Seq<char>, JsonModel)> = match k.hold {
        Option::Some(h) => seq![("hold"@, action_doc(h))],
        Option::None => Seq::empty(),
    };
    let p3: Seq<(Seq<char>, JsonModel)> = if k.mods.len() > 0 {
        seq![("mods"@, JsonModel::Arr(strs_doc(k.mods)))]
    } else {
        Seq::empty()
    };
    let p4: Seq<(Seq<char>, JsonModel)> = match k.when {
        Option::Some(w) => seq![("when"@, JsonModel::Str(w))],
        Option::None => Seq::empty(),
    };
    let p5: Seq<(Seq<char>, JsonModel)> = if k.macros.len() > 0 {
        seq![("macros"@, JsonModel::Arr(strs_doc(k.macros)))]
    } else {
        Seq::empty()
    };
    let fields = p1 + p2 + p3 + p4 + p5;
    lemma_lookup_parts(p1, p2, p3, p4, p5, "tap"@);
    lemma_lookup_parts(p1, p2, p3, p4, p5, "hold"@);
    lemma_lookup_parts(p1, p2, p3, p4, p5, "mods"@);
    lemma_lookup_parts(p1, p2, p3, p4, p5, "when"@);
    lemma_lookup_parts(p1, p2, p3, p4, p5, "macros"@);
    lemma_lookup_small(p1, "tap"@);
    lemma_lookup_small(p2, "tap"@);
    lemma_lookup_small(p3, "tap"@);
    lemma_lookup_small(p4, "tap"@);
    lemma_lookup_small(p5, "tap"@);
    lemma_lookup_small(p1, "hold"@);
    lemma_lookup_small(p2, "hold"@);
    lemma_lookup_small(p3, "hold"@);
    lemma_lookup_small(p4, "hold"@);
    lemma_lookup_small(p5, "hold"@);
    lemma_lookup_small(p1, "mods"@);
    lemma_lookup_small(p2, "mods"@);
    lemma_lookup_small(p3, "mods"@);
    lemma_lookup_small(p4, "mods"@);
    lemma_lookup_small(p5, "mods"@);
    lemma_lookup_small(p1, "when"@);
    lemma_lookup_small(p2, "when"@);
    lemma_lookup_small(p3, "when"@);
    lemma_lookup_small(p4, "when"@);
    lemma_lookup_small(p5, "when"@);
    lemma_lookup_small(p1, "macros"@);
    lemma_lookup_small(p2, "macros"@);
    lemma_lookup_small(p3, "macros"@);
    lemma_lookup_small(p4, "macros"@);
    lemma_lookup_small(p5, "macros"@);
    assert(lookup(fields, "tap"@) == Option::Some(action_doc(k.tap)));
    lemma_action_doc_inverse(k.tap);
    match k.hold {
        Option::Some(h) => {
            assert(lookup(fields, "hold"@) == Option::Some(action_doc(h)));
            lemma_action_doc_inverse(h);
        },
        Option::None => {
            assert(lookup(fields, "hold"@) is None);
        },
    }
    if k.mods.len() > 0 {
        lemma_strings_of_strs_doc(k.mods);
    } else {
        assert(lookup(fields, "mods"@) is None);
        assert(k.mods =~= Seq::<Seq<char>>::empty());
    }
    if k.macros.len() > 0 {
        lemma_strings_of_strs_doc(k.macros);
    } else {
        assert(lookup(fields, "macros"@) is None);
        assert(k.macros =~= Seq::<Seq<char>>::empty());
    }
    assert(k == (KeyView {
        tap: k.tap,
        hold: k.hold,
        mods: k.mods,
        when: k.when,
        macros: k.macros,
    }));
}

/// Whether a key document passes the structural check.
pub open spec fn entry_issue_none(m: JsonModel) -> bool {
    match m {
        JsonModel::Obj(fields) => crate::json::has_name(fields, "tap"@),
        _ => false,
    }
}

/// Lookup in a five-part concatenation of at-most-singleton member groups.
proof fn lemma_lookup_parts(
    p1: Seq<(Seq<char>, JsonModel)>,
    p2: Seq<(Seq<char>, JsonModel)>,
    p3: Seq<(Seq<char>, JsonModel)>,
    p4: Seq<(Seq<char>, JsonModel)>,
    p5: Seq<(Seq<char>, JsonModel)>,
    name: Seq<char>,
)
    ensures
        lookup(p1 + p2 + p3 + p4 + p5, name) == (match lookup(p5, name) {
            Option::Some(v) => Option::Some(v),
            Option::None => match lookup(p4, name) {
                Option::Some(v) => Option::Some(v),
                Option::None => match lookup(p3, name) {
                    Option::Some(v) => Option::Some(v),
                    Option::None => match lookup(p2, name) {
                        Option::Some(v) => Option::Some(v),
                        Option::None => lookup(p1, name),
                    },
                },
            },
        }),
{
    lemma_lookup_append(p1 + p2 + p3 + p4, p5, name);
    lemma_lookup_append(p1 + p2 + p3, p4, name);
    lemma_lookup_append(p1 + p2, p3, name);
    lemma_lookup_append(p1, p2, name);
}

proof fn lemma_keys_doc_inverse(ks: Seq<(Seq<char>, KeyView)>)
    requires
        sorted_unique(ks),
    ensures
        extract_keys(keys_doc(ks)) == Option::Some(ks),
    decreases ks.len(),
{
    if ks.len() == 0 {
        assert(keys_doc(ks).len() == 0);
        assert(ks =~= Seq::<(Seq<char>, KeyView)>::empty());
    } else {
        lemma_keys_doc_inverse(ks.drop_last());
        assert(keys_doc(ks).drop_last() =~= keys_doc(ks.drop_last()));
        assert(keys_doc(ks).last() == (ks.last().0, key_doc(ks.last().1)));
        lemma_key_doc_inverse(ks.last().1);
        let acc = ks.drop_last();
        if acc.len() > 0 {
            assert(lex_lt(ks[ks.len() - 2].0, ks[ks.len() - 1].0));
            assert(acc.last() == ks[ks.len() - 2]);
            assert(insert_entry_spec(acc, ks.last().0, ks.last().1) == acc.push(ks.last()));
        }
        assert(acc.push(ks.last()) =~= ks);
    }
}

proof fn lemma_keys_check_doc(ks: Seq<(Seq<char>, KeyView)>)
    ensures
        crate::schema::keys_check(keys_doc(ks)) is None,
{
    lemma_keys_check_doc_from(ks, 0);
    assert(keys_doc(ks).skip(0) =~= keys_doc(ks));
}

proof fn lemma_keys_check_doc_from(ks: Seq<(Seq<char>, KeyView)>, i: int)
    requires
        0 <= i <= ks.len(),
    ensures
        crate::schema::keys_check(keys_doc(ks).skip(i)) is None,
    decreases ks.len() - i,
{
    if i < ks.len() {
        lemma_keys_check_doc_from(ks, i + 1);
        let s = keys_doc(ks).skip(i);
        assert(s.first() == (ks[i].0, key_doc(ks[i].1)));
        lemma_key_doc_inverse(ks[i].1);
        assert(crate::schema::entry_issue(s.first()) is None);
        assert(s.drop_first() =~= keys_doc(ks).skip(i + 1));
    } else {
        assert(keys_doc(ks).skip(i) =~= Seq::<(Seq<char>, JsonModel)>::empty());
    }
}

/// Round trip: the canonical document of a well-formed configuration passes
/// the structural check and extracts back to exactly that configuration.
pub proof fn lemma_doc_round_trip(v: IrView)
    requires
        v.wf(),
    ensures
        schema_check(ir_doc(v)) is None,
        extract_ir(ir_doc(v)) == Option::Some(v),
{
    lemma_root_names_distinct();
    let p1: Seq<(Seq<char>, JsonModel)> = match v.meta {
        Option::Some(m) => seq![("meta"@, JsonModel::Obj(m))],
        Option::None => Seq::empty(),
    };
    let p2: Seq<(Seq<char>, JsonModel)> = seq![("keys"@, JsonModel::Obj(keys_doc(v.keys)))];
    let p3: Seq<(Seq<char>, JsonModel)> = if v.macros.len() > 0 {
        seq![("macros"@, JsonModel::Obj(v.macros))]
    } else {
        Seq::empty()
    };
    let p4: Seq<(Seq<char>, JsonModel)> = if v.conditions.len() > 0 {
        seq![("conditions"@, JsonModel::Obj(v.conditions))]
    } else {
        Seq::empty()
    };
    let p5: Seq<(Seq<char>, JsonModel)> = if v.layers.len() > 0 {
        seq![("layers"@, JsonModel::Arr(strs_doc(v.layers)))]
    } else {
        Seq::empty()
    };
    let members = p1 + p2 + p3 + p4 + p5;
    lemma_lookup_parts(p1, p2, p3, p4, p5, "meta"@);
    lemma_lookup_parts(p1, p2, p3, p4, p5, "keys"@);
    lemma_lookup_parts(p1, p2, p3, p4, p5, "macros"@);
    lemma_lookup_parts(p1, p2, p3, p4, p5, "conditions"@);
    lemma_lookup_parts(p1, p2, p3, p4, p5, "layers"@);
    lemma_lookup_small(p1, "meta"@);
    lemma_lookup_small(p2, "meta"@);
    lemma_lookup_small(p3, "meta"@);
    lemma_lookup_small(p4, "meta"@);
    lemma_lookup_small(p5, "meta"@);
    lemma_lookup_small(p1, "keys"@);
    lemma_lookup_small(p2, "keys"@);
    lemma_lookup_small(p3, "keys"@);
    lemma_lookup_small(p4, "keys"@);
    lemma_lookup_small(p5, "keys"@);
    lemma_lookup_small(p1, "macros"@);
    lemma_lookup_small(p2, "macros"@);
    lemma_lookup_small(p3, "macros"@);
    lemma_lookup_small(p4, "macros"@);
    lemma_lookup_small(p5, "macros"@);
    lemma_lookup_small(p1, "conditions"@);
    lemma_lookup_small(p2, "conditions"@);
    lemma_lookup_small(p3, "conditions"@);
    lemma_lookup_small(p4, "conditions"@);
    lemma_lookup_small(p5, "conditions"@);
    lemma_lookup_small(p1, "layers"@);
    lemma_lookup_small(p2, "layers"@);
    lemma_lookup_small(p3, "layers"@);
    lemma_lookup_small(p4, "layers"@);
    lemma_lookup_small(p5, "layers"@);
    assert(lookup(members, "keys"@) == Option::Some(JsonModel::Obj(keys_doc(v.keys))));
    lemma_keys_doc_inverse(v.keys);
    lemma_keys_check_doc(v.keys);
    assert(keys_doc(v.keys).skip(0) =~= keys_doc(v.keys));
    match v.meta {
        Option::Some(m) => {
            lemma_sort_entries_identity(m);
        },
        Option::None => {
            assert(lookup(members, "meta"@) is None);
        },
    }
    if v.macros.len() > 0 {
        lemma_sort_entries_identity(v.macros);
    } else {
        assert(lookup(members, "macros"@) is None);
        assert(v.macros =~= Seq::<(Seq<char>, JsonModel)>::empty());
    }
    if v.conditions.len() > 0 {
        lemma_sort_entries_identity(v.conditions);
    } else {
        assert(lookup(members, "conditions"@) is None);
        assert(v.conditions =~= Seq::<(Seq<char>, JsonModel)>::empty());
    }
    if v.layers.len() > 0 {
        lemma_strings_of_strs_doc(v.layers);
    } else {
        assert(lookup(members, "layers"@) is None);
        assert(v.layers =~= Seq::<Seq<char>>::empty());
    }
    assert(extract_structure(ir_doc(v)) == Option::Some(v)) by {
        assert(v == (IrView {
            meta: v.meta,
            keys: v.keys,
            macros: v.macros,
            conditions: v.conditions,
            layers: v.layers,
        }));
    }
}

/// Idempotence: serializing, parsing, and serializing again is byte-identical
/// to serializing once.
pub proof fn lemma_pretty_idempotent(v: IrView)
    requires
        v.wf(),
    ensures
        extract_ir(ir_doc(v)) matches Option::Some(v2) && render(ir_doc(v2), Seq::empty())
            == render(ir_doc(v), Seq::empty()),
{
    lemma_doc_round_trip(v);
}


} // verus!

//! The typed intermediate representation of a keyboard remapping
//! configuration: physical keys, actions, layers, macros, conditions.

use vstd::prelude::*;

use crate::json::{
    JsonModel, JsonValue, entries_view, has_name, insert_entry, insert_entry_spec, lex_lt, lookup,
    sorted_unique,
};

verus! {

broadcast use vstd::std_specs::vec::group_vec_axioms, vstd::seq::group_seq_axioms, vstd::array::group_array_axioms;

/// Complex action with multiple possible behaviors: switch to a layer or
/// invoke a macro. A well-formed value populates exactly one of the two.
#[derive(Debug, Clone)]
pub struct ComplexAction {
    /// Switch to a layer.
    pub layer: Option<String>,
    /// Execute a macro.
    pub macro_name: Option<String>,
}

/// An action that can be performed: a simple key output, or a complex action.
#[derive(Debug, Clone)]
pub enum Action {
    /// Simple key output.
    Key(String),
    /// Complex action.
    Complex(ComplexAction),
}

/// Configuration for a physical key.
#[derive(Debug, Clone)]
pub struct Key {
    /// Action when the key is tapped.
    pub tap: Action,
    /// Action when the key is held.
    pub hold: Option<Action>,
    /// Modifier keys that affect this mapping.
    pub mods: Vec<String>,
    /// Condition that must be met for this mapping.
    pub when: Option<String>,
    /// Macros associated with this key.
    pub macros: Vec<String>,
}

/// The root configuration. Every name-keyed map is held strictly sorted by
/// name, so that serialization and compilation are deterministic.
#[derive(Debug)]
pub struct IR {
    /// Optional metadata about the configuration.
    pub meta: Option<Vec<(String, JsonValue)>>,
    /// Physical key mappings.
    pub keys: Vec<(String, Key)>,
    /// Named macro definitions, kept as opaque structured data.
    pub macros: Vec<(String, JsonValue)>,
    /// Named condition definitions, kept as opaque structured data.
    pub conditions: Vec<(String, JsonValue)>,
    /// Available layers beyond the implicit base layer.
    pub layers: Vec<String>,
}

pub struct ComplexView {
    pub layer: Option<Seq<char>>,
    pub macro_name: Option<Seq<char>>,
}

pub enum ActionView {
    Key(Seq<char>),
    Complex(ComplexView),
}

pub struct KeyView {
    pub tap: ActionView,
    pub hold: Option<ActionView>,
    pub mods: Seq<Seq<char>>,
    pub when: Option<Seq<char>>,
    pub macros: Seq<Seq<char>>,
}

pub struct IrView {
    pub meta: Option<Seq<(Seq<char>, JsonModel)>>,
    pub keys: Seq<(Seq<char>, KeyView)>,
    pub macros: Seq<(Seq<char>, JsonModel)>,
    pub conditions: Seq<(Seq<char>, JsonModel)>,
    pub layers: Seq<Seq<char>>,
}

pub open spec fn opt_str_view(o: Option<String>) -> Option<Seq<char>> {
    match o {
        Option::Some(s) => Option::Some(s@),
        Option::None => Option::None,
    }
}

pub open spec fn strs_view(s: Seq<String>) -> Seq<Seq<char>> {
    Seq::new(s.len(), |i: int| s[i]@)
}

impl View for ComplexAction {
    type V = ComplexView;

    open spec fn view(&self) -> ComplexView {
        ComplexView { layer: opt_str_view(self.layer), macro_name: opt_str_view(self.macro_name) }
    }
}

impl View for Action {
    type V = ActionView;

    open spec fn view(&self) -> ActionView {
        match self {
            Action::Key(s) => ActionView::Key(s@),
            Action::Complex(c) => ActionView::Complex(c@),
        }
    }
}

impl View for Key {
    type V = KeyView;

    open spec fn view(&self) -> KeyView {
        KeyView {
            tap: self.tap@,
            hold: match self.hold {
                Option::Some(a) => Option::Some(a@),
                Option::None => Option::None,
            },
            mods: strs_view(self.mods@),
            when: opt_str_view(self.when),
            macros: strs_view(self.macros@),
        }
    }
}

impl View for IR {
    type V = IrView;

    open spec fn view(&self) -> IrView {
        IrView {
            meta: match self.meta {
                Option::Some(m) => Option::Some(entries_view(m@)),
                Option::None => Option::None,
            },
            keys: entries_view(self.keys@),
            macros: entries_view(self.macros@),
            conditions: entries_view(self.conditions@),
            layers: strs_view(self.layers@),
        }
    }
}

/// The name of the implicit base layer.
pub open spec fn base_layer_name() -> Seq<char> {
    "base"@
}

impl ActionView {
    /// A complex action must populate exactly one alternative.
    pub open spec fn wf(self) -> bool {
        match self {
            ActionView::Key(_) => true,
            ActionView::Complex(c) => (c.layer is Some) != (c.macro_name is Some),
        }
    }

    /// Every layer or macro the action names exists.
    pub open spec fn refs_ok(
        self,
        layers: Seq<Seq<char>>,
        macros: Seq<(Seq<char>, JsonModel)>,
    ) -> bool {
        match self {
            ActionView::Key(_) => true,
            ActionView::Complex(c) => {
                &&& match c.layer {
                    Option::Some(l) => l == base_layer_name() || layers.contains(l),
                    Option::None => true,
                }
                &&& match c.macro_name {
                    Option::Some(m) => has_name(macros, m),
                    Option::None => true,
                }
            },
        }
    }
}

impl KeyView {
    pub open spec fn actions_wf(self) -> bool {
        &&& self.tap.wf()
        &&& match self.hold {
            Option::Some(a) => a.wf(),
            Option::None => true,
        }
    }

    pub open spec fn refs_ok(self, ir: IrView) -> bool {
        &&& self.tap.refs_ok(ir.layers, ir.macros)
        &&& match self.hold {
            Option::Some(a) => a.refs_ok(ir.layers, ir.macros),
            Option::None => true,
        }
        &&& match self.when {
            Option::Some(w) => has_name(ir.conditions, w),
            Option::None => true,
        }
        &&& forall|i: int| 0 <= i < self.macros.len() ==> has_name(ir.macros, #[trigger] self.macros[i])
    }
}

impl IrView {
    /// Every name-keyed map strictly sorted: the canonical representation.
    pub open spec fn maps_sorted(self) -> bool {
        &&& sorted_unique(self.keys)
        &&& sorted_unique(self.macros)
        &&& sorted_unique(self.conditions)
        &&& match self.meta {
            Option::Some(m) => sorted_unique(m),
            Option::None => true,
        }
    }

    /// Every complex action populates exactly one alternative.
    pub open spec fn actions_wf(self) -> bool {
        forall|i: int| 0 <= i < self.keys.len() ==> (#[trigger] self.keys[i]).1.actions_wf()
    }

    /// Every weak reference resolves: `when` names a condition, key macros
    /// name macros, and action layers/macros are declared.
    pub open spec fn refs_ok(self) -> bool {
        forall|i: int| 0 <= i < self.keys.len() ==> (#[trigger] self.keys[i]).1.refs_ok(self)
    }

    /// A fully valid configuration, as the validator guarantees it.
    pub open spec fn wf(self) -> bool {
        self.maps_sorted() && self.actions_wf() && self.refs_ok()
    }

    pub open spec fn empty() -> IrView {
        IrView {
            meta: Option::None,
            keys: Seq::empty(),
            macros: Seq::empty(),
            conditions: Seq::empty(),
            layers: Seq::empty(),
        }
    }
}

impl IR {
    /// Create a new empty IR.
    pub fn new() -> (r: IR)
        ensures
            r@ == IrView::empty(),
            r@.wf(),
    {
        let r = IR {
            meta: None,
            keys: Vec::new(),
            macros: Vec::new(),
            conditions: Vec::new(),
            layers: Vec::new(),
        };
        proof {
            assert(r@.keys =~= Seq::<(Seq<char>, KeyView)>::empty());
            assert(r@.macros =~= Seq::<(Seq<char>, JsonModel)>::empty());
            assert(r@.conditions =~= Seq::<(Seq<char>, JsonModel)>::empty());
            assert(r@.layers =~= Seq::<Seq<char>>::empty());
        }
        r
    }

    /// Add a simple key mapping: an unchecked builder that inserts or
    /// overwrites a key whose tap action outputs `output_key`.
    pub fn add_key_mapping(&mut self, physical_key: &str, output_key: &str)
        ensures
            final(self)@ == (IrView {
                keys: insert_entry_spec(
                    old(self)@.keys,
                    physical_key@,
                    (KeyView {
                        tap: ActionView::Key(output_key@),
                        hold: Option::None,
                        mods: Seq::empty(),
                        when: Option::None,
                        macros: Seq::empty(),
                    }),
                ),
                ..old(self)@
            }),
    {
        let key = Key {
            tap: Action::Key(output_key.to_owned()),
            hold: None,
            mods: Vec::new(),
            when: None,
            macros: Vec::new(),
        };
        proof {
            assert(key@.mods =~= Seq::<Seq<char>>::empty());
            assert(key@.macros =~= Seq::<Seq<char>>::empty());
        }
        insert_entry(&mut self.keys, physical_key.to_owned(), key);
    }

    /// Look a physical key up by name.
    pub fn get_key<'a>(&'a self, name: &str) -> (r: Option<&'a Key>)
        ensures
            match r {
                Option::Some(k) => lookup(self@.keys, name@) == Option::Some(k@),
                Option::None => lookup(self@.keys, name@) is None,
            },
    {
        let ghost entries = self@.keys;
        proof {
            assert(entries.take(self.keys@.len() as int) =~= entries);
        }
        let mut j = self.keys.len();
        while j > 0
            invariant
                j <= self.keys.len(),
                entries == entries_view(self.keys@),
                entries.len() == self.keys@.len(),
                lookup(entries, name@) == lookup(entries.take(j as int), name@),
            decreases j,
        {
            proof {
                assert(entries.take(j as int).last() == entries[j - 1]);
                assert(entries.take(j as int).drop_last() =~= entries.take(j - 1));
            }
            if crate::json::str_eq(self.keys[j - 1].0.as_str(), name) {
                return Some(&self.keys[j - 1].1);
            }
            j = j - 1;
        }
        proof {
            assert(entries.take(0) =~= Seq::<(Seq<char>, KeyView)>::empty());
        }
        None
    }
}

impl Default for IR {
    /// The default configuration is the empty one.
    fn default() -> (r: IR)
        ensures
            r@ == IrView::empty(),
    {
        IR::new()
    }
}

/// Sorted insertion keeps an association sequence strictly sorted.
pub proof fn lemma_insert_preserves_sorted<V>(
    entries: Seq<(Seq<char>, V)>,
    name: Seq<char>,
    value: V,
)
    requires
        sorted_unique(entries),
    ensures
        sorted_unique(insert_entry_spec(entries, name, value)),
    decreases entries,
{
    if entries.len() == 0 {
    } else if lex_lt(entries.last().0, name) {
        let r = insert_entry_spec(entries, name, value);
        assert forall|i: int, j: int| 0 <= i < j < r.len() implies lex_lt(r[i].0, r[j].0) by {
            if j == r.len() - 1 {
                if i < entries.len() - 1 {
                    assert(lex_lt(entries[i].0, entries.last().0));
                    crate::json::lemma_lex_trans(entries[i].0, entries.last().0, name);
                }
            }
        }
    } else if entries.last().0 == name {
        let r = entries.drop_last().push((name, value));
        assert forall|i: int, j: int| 0 <= i < j < r.len() implies lex_lt(r[i].0, r[j].0) by {
            if j == r.len() - 1 {
                assert(lex_lt(entries[i].0, entries[j].0));
            }
        }
    } else {
        lemma_insert_preserves_sorted(entries.drop_last(), name, value);
        crate::json::lemma_lex_trichotomy(entries.last().0, name);
        let rr = insert_entry_spec(entries.drop_last(), name, value);
        lemma_insert_entry_elements(entries.drop_last(), name, value);
        let r = rr.push(entries.last());
        assert forall|i: int, j: int| 0 <= i < j < r.len() implies lex_lt(r[i].0, r[j].0) by {
            if j == r.len() - 1 {
                if rr[i] == (name, value) {
                    assert(lex_lt(name, entries.last().0));
                } else {
                    let k = choose|k: int| 0 <= k < entries.len() - 1 && entries.drop_last()[k]
                        == rr[i];
                    assert(lex_lt(entries[k].0, entries.last().0));
                }
            }
        }
    }
}

/// Every entry of a sorted insertion is the inserted pair or one of the old
/// entries.
pub proof fn lemma_insert_entry_elements<V>(entries: Seq<(Seq<char>, V)>, name: Seq<char>, value: V)
    ensures
        forall|i: int|
            0 <= i < insert_entry_spec(entries, name, value).len() ==> (
            #[trigger] insert_entry_spec(entries, name, value)[i] == (name, value) || exists|k: int|
                0 <= k < entries.len() && entries[k] == insert_entry_spec(entries, name, value)[i]),
    decreases entries,
{
    let r = insert_entry_spec(entries, name, value);
    if entries.len() == 0 {
        assert(r[0] == (name, value));
    } else if lex_lt(entries.last().0, name) {
        assert forall|i: int| 0 <= i < r.len() implies (r[i] == (name, value) || exists|k: int|
            0 <= k < entries.len() && entries[k] == r[i]) by {
            if i < entries.len() {
                assert(entries[i] == r[i]);
            }
        }
    } else if entries.last().0 == name {
        assert forall|i: int| 0 <= i < r.len() implies (r[i] == (name, value) || exists|k: int|
            0 <= k < entries.len() && entries[k] == r[i]) by {
            if i < entries.len() - 1 {
                assert(entries[i] == r[i]);
            }
        }
    } else {
        lemma_insert_entry_elements(entries.drop_last(), name, value);
        let rr = insert_entry_spec(entries.drop_last(), name, value);
        assert forall|i: int| 0 <= i < r.len() implies (r[i] == (name, value) || exists|k: int|
            0 <= k < entries.len() && entries[k] == r[i]) by {
            if i == r.len() - 1 {
                assert(entries[entries.len() - 1] == r[i]);
            } else {
                assert(rr[i] == r[i]);
                if rr[i] != (name, value) {
                    let k = choose|k: int|
                        0 <= k < entries.drop_last().len() && entries.drop_last()[k] == rr[i];
                    assert(entries[k] == r[i]);
                }
            }
        }
    }
}

pub(crate) fn contains_name(names: &Vec<String>, s: &str) -> (r: bool)
    ensures
        r == strs_view(names@).contains(s@),
{
    let ghost ns = strs_view(names@);
    let n = names.len();
    let mut i: usize = 0;
    while i < n
        invariant
            n == names@.len(),
            ns == strs_view(names@),
            i <= n,
            forall|k: int| 0 <= k < i ==> ns[k] != s@,
        decreases n - i,
    {
        if crate::json::str_eq(names[i].as_str(), s) {
            proof {
                assert(ns[i as int] == s@);
            }
            return true;
        }
        i = i + 1;
    }
    proof {
        assert(forall|k: int| 0 <= k < ns.len() ==> ns[k] != s@);
    }
    false
}

pub(crate) fn entries_has(entries: &Vec<(String, JsonValue)>, s: &str) -> (r: bool)
    ensures
        r == has_name(entries_view(entries@), s@),
{
    let ghost es = entries_view(entries@);
    proof {
        assert(es.take(entries@.len() as int) =~= es);
    }
    let mut j = entries.len();
    while j > 0
        invariant
            j <= entries.len(),
            es == entries_view(entries@),
            es.len() == entries@.len(),
            lookup(es, s@) == lookup(es.take(j as int), s@),
        decreases j,
    {
        proof {
            assert(es.take(j as int).last() == es[j - 1]);
            assert(es.take(j as int).drop_last() =~= es.take(j - 1));
        }
        if crate::json::str_eq(entries[j - 1].0.as_str(), s) {
            return true;
        }
        j = j - 1;
    }
    proof {
        assert(es.take(0) =~= Seq::<(Seq<char>, JsonModel)>::empty());
    }
    false
}

/// The unchecked builder keeps a well-formed configuration well formed: the
/// inserted mapping is a plain output key, and no other entry changes.
pub proof fn lemma_add_key_mapping_preserves_wf(v: IrView, name: Seq<char>, out: Seq<char>)
    requires
        v.wf(),
    ensures
        (IrView {
            keys: insert_entry_spec(
                v.keys,
                name,
                (KeyView {
                    tap: ActionView::Key(out),
                    hold: Option::None,
                    mods: Seq::empty(),
                    when: Option::None,
                    macros: Seq::empty(),
                }),
            ),
            ..v
        }).wf(),
{
    let nk = KeyView {
        tap: ActionView::Key(out),
        hold: Option::None,
        mods: Seq::empty(),
        when: Option::None,
        macros: Seq::empty(),
    };
    let v2 = IrView { keys: insert_entry_spec(v.keys, name, nk), ..v };
    lemma_insert_preserves_sorted(v.keys, name, nk);
    lemma_insert_entry_elements(v.keys, name, nk);
    assert forall|i: int| 0 <= i < v2.keys.len() implies (#[trigger] v2.keys[i]).1.actions_wf()
        && v2.keys[i].1.refs_ok(v2) by {
        if v2.keys[i] == (name, nk) {
            assert(nk.actions_wf());
            assert(nk.refs_ok(v2));
        } else {
            let k = choose|k: int| 0 <= k < v.keys.len() && v.keys[k] == v2.keys[i];
            assert(v.keys[k].1.actions_wf());
            assert(v.keys[k].1.refs_ok(v));
            assert(v2.keys[i].1.refs_ok(v2)) by {
                assert(v2.macros == v.macros);
                assert(v2.conditions == v.conditions);
                assert(v2.layers == v.layers);
            }
        }
    }
}

} // verus!

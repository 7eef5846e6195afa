//! The compiler: turns a validated configuration into the target keyboard
//! firmware DSL. The text has a key-declaration block followed by one block
//! per layer; position `i` of every layer block resolves the key declared at
//! position `i` of the declaration block.

use vstd::prelude::*;

use crate::KeypathError;
use crate::ir::{Action, ActionView, IR, IrView, KeyView, base_layer_name, contains_name, entries_has, strs_view};
use crate::json::{
    JsonModel, JsonValue, entries_view, has_name, push_str_chars, str_eq, string_from_chars,
};

verus! {

broadcast use vstd::std_specs::vec::group_vec_axioms, vstd::seq::group_seq_axioms, vstd::array::group_array_axioms;

/// The text of one resolved action: a bare output key, a layer switch, or a
/// macro invocation.
pub open spec fn action_text(a: ActionView) -> Seq<char> {
    match a {
        ActionView::Key(s) => s,
        ActionView::Complex(c) => match c.layer {
            Option::Some(l) => "(layer-switch "@ + l + ")"@,
            Option::None => match c.macro_name {
                Option::Some(m) => "(macro "@ + m + ")"@,
                Option::None => Seq::empty(),
            },
        },
    }
}

pub open spec fn join_spaced(ss: Seq<Seq<char>>) -> Seq<char>
    decreases ss,
{
    if ss.len() == 0 {
        Seq::empty()
    } else if ss.len() == 1 {
        ss[0]
    } else {
        join_spaced(ss.drop_last()) + " "@ + ss.last()
    }
}

/// The full entry for one key: tap-hold wrapping when a hold action exists,
/// and a modifier guard when the key requires modifiers.
pub open spec fn entry_text(k: KeyView) -> Seq<char> {
    let core = match k.hold {
        Option::Some(h) => "(tap-hold 200 200 "@ + action_text(k.tap) + " "@ + action_text(h)
            + ")"@,
        Option::None => action_text(k.tap),
    };
    if k.mods.len() > 0 {
        "(multi "@ + join_spaced(k.mods) + " "@ + core + ")"@
    } else {
        core
    }
}

/// The key order: physical key names as held by the (sorted) key map.
pub open spec fn key_names(v: IrView) -> Seq<Seq<char>> {
    Seq::new(v.keys.len(), |i: int| v.keys[i].0)
}

/// The entries of every layer block, in key order.
pub open spec fn layer_entries(v: IrView) -> Seq<Seq<char>> {
    Seq::new(v.keys.len(), |i: int| entry_text(v.keys[i].1))
}

pub open spec fn lines_block(ls: Seq<Seq<char>>) -> Seq<char>
    decreases ls,
{
    if ls.len() == 0 {
        Seq::empty()
    } else {
        lines_block(ls.drop_last()) + "  "@ + ls.last() + "\n"@
    }
}

pub open spec fn defsrc_text(v: IrView) -> Seq<char> {
    "(defsrc\n"@ + lines_block(key_names(v)) + ")\n"@
}

pub open spec fn layer_block_text(name: Seq<char>, v: IrView) -> Seq<char> {
    "\n(deflayer "@ + name + "\n"@ + lines_block(layer_entries(v)) + ")\n"@
}

/// The implicit base layer followed by every declared layer, in order.
pub open spec fn all_layer_names(v: IrView) -> Seq<Seq<char>> {
    seq![base_layer_name()] + v.layers
}

pub open spec fn layer_blocks_text(v: IrView, ls: Seq<Seq<char>>) -> Seq<char>
    decreases ls,
{
    if ls.len() == 0 {
        Seq::empty()
    } else {
        layer_blocks_text(v, ls.drop_last()) + layer_block_text(ls.last(), v)
    }
}

pub open spec fn macros_text(ms: Seq<(Seq<char>, JsonModel)>) -> Seq<char>
    decreases ms,
{
    if ms.len() == 0 {
        Seq::empty()
    } else {
        macros_text(ms.drop_last()) + "\n(defmacro "@ + ms.last().0 + ")\n"@
    }
}

/// Whether some key's `when` references the condition.
pub open spec fn cond_referenced(v: IrView, name: Seq<char>) -> bool {
    exists|i: int|
        0 <= i < v.keys.len() && (#[trigger] v.keys[i]).1.when == Option::Some(name)
}

pub open spec fn conds_text(v: IrView, cs: Seq<(Seq<char>, JsonModel)>) -> Seq<char>
    decreases cs,
{
    if cs.len() == 0 {
        Seq::empty()
    } else {
        conds_text(v, cs.drop_last()) + (if cond_referenced(v, cs.last().0) {
            "\n(defcond "@ + cs.last().0 + ")\n"@
        } else {
            Seq::empty()
        })
    }
}

/// The whole compiled document.
pub open spec fn export_text(v: IrView) -> Seq<char> {
    defsrc_text(v) + layer_blocks_text(v, all_layer_names(v)) + macros_text(v.macros)
        + conds_text(v, v.conditions)
}

/// The defect of one action, if any: a malformed complex action, or a
/// reference to an undeclared layer or macro.
pub open spec fn action_issue(
    a: ActionView,
    layers: Seq<Seq<char>>,
    macros: Seq<(Seq<char>, JsonModel)>,
) -> Option<Seq<char>> {
    match a {
        ActionView::Key(_) => Option::None,
        ActionView::Complex(c) => {
            if c.layer is Some && c.macro_name is Some {
                Option::Some("complex action populates both layer and macro_name"@)
            } else if c.layer is None && c.macro_name is None {
                Option::Some("complex action populates neither layer nor macro_name"@)
            } else {
                match c.layer {
                    Option::Some(l) => {
                        if l == base_layer_name() || layers.contains(l) {
                            Option::None
                        } else {
                            Option::Some("unknown layer '"@ + l + "'"@)
                        }
                    },
                    Option::None => match c.macro_name {
                        Option::Some(m) => {
                            if has_name(macros, m) {
                                Option::None
                            } else {
                                Option::Some("unknown macro '"@ + m + "'"@)
                            }
                        },
                        Option::None => Option::None,
                    },
                }
            }
        },
    }
}

pub open spec fn key_issue(
    k: KeyView,
    layers: Seq<Seq<char>>,
    macros: Seq<(Seq<char>, JsonModel)>,
) -> Option<Seq<char>> {
    match action_issue(k.tap, layers, macros) {
        Option::Some(m) => Option::Some(m),
        Option::None => match k.hold {
            Option::Some(h) => action_issue(h, layers, macros),
            Option::None => Option::None,
        },
    }
}

/// The first defect over the keys in key order, with the key named.
pub open spec fn first_issue(
    keys: Seq<(Seq<char>, KeyView)>,
    layers: Seq<Seq<char>>,
    macros: Seq<(Seq<char>, JsonModel)>,
) -> Option<Seq<char>>
    decreases keys,
{
    if keys.len() == 0 {
        Option::None
    } else {
        match key_issue(keys.first().1, layers, macros) {
            Option::Some(m) => Option::Some("Key '"@ + keys.first().0 + "': "@ + m),
            Option::None => first_issue(keys.drop_first(), layers, macros),
        }
    }
}

/// A configuration the compiler can render completely.
pub open spec fn export_ok(v: IrView) -> bool {
    first_issue(v.keys, v.layers, v.macros) is None
}

/// Positional invariant of the compiled document: every layer block has
/// exactly as many entries as the declaration block, every layer block lays
/// its entries out over the same text, and the entry at position `i` resolves
/// the key declared at position `i`.
pub proof fn lemma_positional_invariant(v: IrView)
    ensures
        layer_entries(v).len() == key_names(v).len(),
        forall|i: int|
            0 <= i < key_names(v).len() ==> key_names(v)[i] == v.keys[i].0 && layer_entries(v)[i]
                == entry_text(v.keys[i].1),
        forall|l: Seq<char>| #[trigger]
            layer_block_text(l, v) == "\n(deflayer "@ + l + "\n"@ + lines_block(layer_entries(v))
                + ")\n"@,
{
}



/// Checks one action against the declared layers and macros, mirroring
/// `action_issue`.
fn check_action(a: &Action, layers: &Vec<String>, macros: &Vec<(String, JsonValue)>) -> (r: Option<
    String,
>)
    ensures
        match r {
            Option::Some(m) => action_issue(a@, strs_view(layers@), entries_view(macros@))
                == Option::Some(m@),
            Option::None => action_issue(a@, strs_view(layers@), entries_view(macros@)) is None,
        },
{
    match a {
        Action::Key(_) => None,
        Action::Complex(c) => {
            match (&c.layer, &c.macro_name) {
                (Some(_), Some(_)) => Some(
                    "complex action populates both layer and macro_name".to_owned(),
                ),
                (None, None) => Some(
                    "complex action populates neither layer nor macro_name".to_owned(),
                ),
                (Some(l), None) => {
                    if str_eq(l.as_str(), "base") || contains_name(layers, l.as_str()) {
                        None
                    } else {
                        let mut m = "unknown layer '".to_owned();
                        m.append(l.as_str());
                        m.append("'");
                        Some(m)
                    }
                },
                (None, Some(mac)) => {
                    if entries_has(macros, mac.as_str()) {
                        None
                    } else {
                        let mut m = "unknown macro '".to_owned();
                        m.append(mac.as_str());
                        m.append("'");
                        Some(m)
                    }
                },
            }
        },
    }
}

/// Writes one resolved action, mirroring `action_text`.
fn write_action(out: &mut Vec<char>, a: &Action)
    ensures
        final(out)@ == old(out)@ + action_text(a@),
{
    match a {
        Action::Key(s) => {
            push_str_chars(out, s.as_str());
        },
        Action::Complex(c) => {
            match (&c.layer, &c.macro_name) {
                (Some(l), _) => {
                    push_str_chars(out, "(layer-switch ");
                    push_str_chars(out, l.as_str());
                    push_str_chars(out, ")");
                },
                (None, Some(m)) => {
                    push_str_chars(out, "(macro ");
                    push_str_chars(out, m.as_str());
                    push_str_chars(out, ")");
                },
                (None, None) => {},
            }
        },
    }
    proof {
        assert(final(out)@ =~= old(out)@ + action_text(a@));
    }
}

/// Writes the full entry for one key, mirroring `entry_text`.
fn write_entry(out: &mut Vec<char>, k: &crate::ir::Key)
    ensures
        final(out)@ == old(out)@ + entry_text(k@),
{
    let ghost start = out@;
    let has_mods = k.mods.len() > 0;
    if has_mods {
        push_str_chars(out, "(multi ");
        let n = k.mods.len();
        let mut i: usize = 0;
        while i < n
            invariant
                n == k.mods@.len(),
                i <= n,
                out@ == start + "(multi "@ + join_spaced(strs_view(k.mods@).take(i as int)),
            decreases n - i,
        {
            if i > 0 {
                push_str_chars(out, " ");
            }
            push_str_chars(out, k.mods[i].as_str());
            i = i + 1;
            proof {
                let ms = strs_view(k.mods@);
                assert(ms.take(i as int).drop_last() =~= ms.take(i - 1));
                assert(ms.take(i as int).last() == ms[i - 1]);
                assert(out@ =~= start + "(multi "@ + join_spaced(ms.take(i as int)));
            }
        }
        proof {
            assert(strs_view(k.mods@).take(n as int) =~= strs_view(k.mods@));
        }
        push_str_chars(out, " ");
    }
    match &k.hold {
        Some(h) => {
            push_str_chars(out, "(tap-hold 200 200 ");
            write_action(out, &k.tap);
            push_str_chars(out, " ");
            write_action(out, h);
            push_str_chars(out, ")");
        },
        None => {
            write_action(out, &k.tap);
        },
    }
    if has_mods {
        push_str_chars(out, ")");
    }
    proof {
        assert(final(out)@ =~= old(out)@ + entry_text(k@));
    }
}

/// Writes one layer block, mirroring `layer_block_text`.
fn write_layer_block(out: &mut Vec<char>, name: &str, ir: &IR)
    ensures
        final(out)@ == old(out)@ + layer_block_text(name@, ir@),
{
    let ghost v = ir@;
    let ghost before = out@;
    push_str_chars(out, "\n(deflayer ");
    push_str_chars(out, name);
    push_str_chars(out, "\n");
    proof {
        assert(out@ =~= before + "\n(deflayer "@ + name@ + "\n"@ + lines_block(
            layer_entries(v).take(0),
        ));
    }
    let nkeys = ir.keys.len();
    let mut i: usize = 0;
    while i < nkeys
        invariant
            i <= nkeys,
            v == ir@,
            nkeys == ir.keys@.len(),
            out@ == before + "\n(deflayer "@ + name@ + "\n"@ + lines_block(
                layer_entries(v).take(i as int),
            ),
        decreases nkeys - i,
    {
        push_str_chars(out, "  ");
        write_entry(out, &ir.keys[i].1);
        push_str_chars(out, "\n");
        i = i + 1;
        proof {
            assert(layer_entries(v).take(i as int).drop_last() =~= layer_entries(v).take(i - 1));
            assert(layer_entries(v).take(i as int).last() == entry_text(v.keys[i - 1].1));
            assert(out@ =~= before + "\n(deflayer "@ + name@ + "\n"@ + lines_block(
                layer_entries(v).take(i as int),
            ));
        }
    }
    push_str_chars(out, ")\n");
    proof {
        assert(layer_entries(v).take(nkeys as int) =~= layer_entries(v));
        assert(final(out)@ =~= before + layer_block_text(name@, v));
    }
}

/// Export a validated IR to the Kanata DSL.
///
/// Succeeds exactly when no action is malformed and every referenced layer
/// and macro is declared; the text is then `export_text` of the
/// configuration. The first defect found, in key order, is otherwise
/// reported by name.
#[verifier::loop_isolation(false)]
#[verifier::rlimit(100)]
pub fn export_kanata(ir: &IR) -> (r: Result<String, KeypathError>)
    ensures
        export_ok(ir@) <==> r is Ok,
        match r {
            Result::Ok(s) => s@ == export_text(ir@),
            Result::Err(e) => match e {
                KeypathError::ExportFailed(m) => first_issue(ir@.keys, ir@.layers, ir@.macros)
                    == Option::Some(m@),
                _ => false,
            },
        },
{
    let ghost v = ir@;
    let nkeys = ir.keys.len();
    // Defensive reference check, mirroring `first_issue`.
    let mut i: usize = 0;
    proof {
        assert(v.keys.skip(0) =~= v.keys);
    }
    while i < nkeys
        invariant
            i <= nkeys,
            first_issue(v.keys, v.layers, v.macros) == first_issue(
                v.keys.skip(i as int),
                v.layers,
                v.macros,
            ),
        decreases nkeys - i,
    {
        proof {
            assert(v.keys.skip(i as int).first() == v.keys[i as int]);
            assert(v.keys.skip(i as int).drop_first() =~= v.keys.skip(i + 1));
        }
        let issue = match check_action(&ir.keys[i].1.tap, &ir.layers, &ir.macros) {
            Some(m) => Some(m),
            None => match &ir.keys[i].1.hold {
                Some(h) => check_action(h, &ir.layers, &ir.macros),
                None => None,
            },
        };
        if let Some(m) = issue {
            let mut full = "Key '".to_owned();
            full.append(ir.keys[i].0.as_str());
            full.append("': ");
            full.append(m.as_str());
            proof {
                assert(key_issue(v.keys[i as int].1, v.layers, v.macros) == Option::Some(m@));
                assert(full@ =~= "Key '"@ + v.keys[i as int].0 + "': "@ + m@);
                assert(first_issue(v.keys.skip(i as int), v.layers, v.macros) == Option::Some(
                    full@,
                ));
            }
            return Err(KeypathError::ExportFailed(full));
        }
        proof {
            assert(key_issue(v.keys[i as int].1, v.layers, v.macros) is None);
        }
        i = i + 1;
    }
    proof {
        assert(v.keys.skip(nkeys as int) =~= Seq::<(Seq<char>, KeyView)>::empty());
        assert(export_ok(v));
    }
    // Declaration block.
    let mut out: Vec<char> = Vec::new();
    push_str_chars(&mut out, "(defsrc\n");
    let mut i: usize = 0;
    while i < nkeys
        invariant
            i <= nkeys,
            out@ == "(defsrc\n"@ + lines_block(key_names(v).take(i as int)),
        decreases nkeys - i,
    {
        push_str_chars(&mut out, "  ");
        push_str_chars(&mut out, ir.keys[i].0.as_str());
        push_str_chars(&mut out, "\n");
        i = i + 1;
        proof {
            assert(key_names(v).take(i as int).drop_last() =~= key_names(v).take(i - 1));
            assert(out@ =~= "(defsrc\n"@ + lines_block(key_names(v).take(i as int)));
        }
    }
    push_str_chars(&mut out, ")\n");
    proof {
        assert(key_names(v).take(nkeys as int) =~= key_names(v));
        assert(out@ =~= defsrc_text(v));
    }
    // Layer blocks: the implicit base layer, then each declared layer.
    let ghost all = all_layer_names(v);
    write_layer_block(&mut out, "base", ir);
    proof {
        let t1 = all.take(1);
        assert(t1.len() == 1);
        assert(t1.last() == base_layer_name());
        assert(t1.drop_last() =~= Seq::<Seq<char>>::empty());
        assert(layer_blocks_text(v, Seq::<Seq<char>>::empty()) == Seq::<char>::empty());
        assert(layer_blocks_text(v, t1) =~= layer_block_text(base_layer_name(), v));
        assert(out@ =~= defsrc_text(v) + layer_blocks_text(v, t1));
    }
    let nlayers = ir.layers.len();
    let mut li: usize = 0;
    while li < nlayers
        invariant
            li <= nlayers,
            nlayers == v.layers.len(),
            all == all_layer_names(v),
            all.len() == nlayers + 1,
            out@ == defsrc_text(v) + layer_blocks_text(v, all.take(li + 1)),
        decreases nlayers - li,
    {
        write_layer_block(&mut out, ir.layers[li].as_str(), ir);
        li = li + 1;
        proof {
            assert(all.take(li + 1).drop_last() =~= all.take(li as int));
            assert(all.take(li + 1).last() == v.layers[li - 1]);
            assert(out@ =~= defsrc_text(v) + layer_blocks_text(v, all.take(li + 1)));
        }
    }
    proof {
        assert(all.take((nlayers + 1) as int) =~= all);
    }
    // Macro definition blocks.
    let nmacros = ir.macros.len();
    let mut i: usize = 0;
    while i < nmacros
        invariant
            i <= nmacros,
            out@ == defsrc_text(v) + layer_blocks_text(v, all_layer_names(v)) + macros_text(
                v.macros.take(i as int),
            ),
        decreases nmacros - i,
    {
        push_str_chars(&mut out, "\n(defmacro ");
        push_str_chars(&mut out, ir.macros[i].0.as_str());
        push_str_chars(&mut out, ")\n");
        i = i + 1;
        proof {
            assert(v.macros.take(i as int).drop_last() =~= v.macros.take(i - 1));
            assert(v.macros.take(i as int).last() == v.macros[i - 1]);
            assert(out@ =~= defsrc_text(v) + layer_blocks_text(v, all_layer_names(v))
                + macros_text(v.macros.take(i as int)));
        }
    }
    proof {
        assert(v.macros.take(nmacros as int) =~= v.macros);
    }
    // Guard blocks for conditions referenced by at least one key.
    let nconds = ir.conditions.len();
    let mut i: usize = 0;
    while i < nconds
        invariant
            i <= nconds,
            out@ == defsrc_text(v) + layer_blocks_text(v, all_layer_names(v)) + macros_text(
                v.macros,
            ) + conds_text(v, v.conditions.take(i as int)),
        decreases nconds - i,
    {
        let mut referenced = false;
        let mut j: usize = 0;
        while j < nkeys
            invariant
                j <= nkeys,
                referenced ==> cond_referenced(v, v.conditions[i as int].0),
                !referenced ==> forall|k: int|
                    0 <= k < j ==> (#[trigger] v.keys[k]).1.when != Option::Some(
                        v.conditions[i as int].0,
                    ),
            decreases nkeys - j,
        {
            if !referenced {
                if let Some(w) = &ir.keys[j].1.when {
                    if str_eq(w.as_str(), ir.conditions[i].0.as_str()) {
                        referenced = true;
                        proof {
                            assert(v.keys[j as int].1.when == Option::Some(
                                v.conditions[i as int].0,
                            ));
                        }
                    }
                }
            }
            j = j + 1;
        }
        if referenced {
            push_str_chars(&mut out, "\n(defcond ");
            push_str_chars(&mut out, ir.conditions[i].0.as_str());
            push_str_chars(&mut out, ")\n");
        }
        i = i + 1;
        proof {
            if !referenced {
                assert(!cond_referenced(v, v.conditions[i - 1].0));
            }
            assert(v.conditions.take(i as int).drop_last() =~= v.conditions.take(i - 1));
            assert(v.conditions.take(i as int).last() == v.conditions[i - 1]);
            assert(out@ =~= defsrc_text(v) + layer_blocks_text(v, all_layer_names(v))
                + macros_text(v.macros) + conds_text(v, v.conditions.take(i as int)));
        }
    }
    proof {
        assert(v.conditions.take(nconds as int) =~= v.conditions);
        assert(out@ =~= export_text(v));
    }
    Ok(string_from_chars(out))
}

proof fn lemma_first_issue_none(v: IrView, i: int)
    requires
        v.wf(),
        0 <= i <= v.keys.len(),
    ensures
        first_issue(v.keys.skip(i), v.layers, v.macros) is None,
    decreases v.keys.len() - i,
{
    if i < v.keys.len() {
        assert(v.keys[i].1.actions_wf());
        assert(v.keys[i].1.refs_ok(v));
        assert(v.keys.skip(i).first() == v.keys[i]);
        assert(key_issue(v.keys[i].1, v.layers, v.macros) is None);
        assert(v.keys.skip(i).drop_first() =~= v.keys.skip(i + 1));
        lemma_first_issue_none(v, i + 1);
    } else {
        assert(v.keys.skip(i) =~= Seq::<(Seq<char>, KeyView)>::empty());
    }
}

/// A well-formed configuration, as the validator yields it, always exports.
pub proof fn lemma_valid_ir_exports(v: IrView)
    requires
        v.wf(),
    ensures
        export_ok(v),
{
    lemma_first_issue_none(v, 0);
    assert(v.keys.skip(0) =~= v.keys);
}

} // verus!

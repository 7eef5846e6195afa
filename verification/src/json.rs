//! Generic structured documents: the JSON value model the validator works on,
//! and the canonical renderer that turns documents back into text.

use vstd::prelude::*;

verus! {

broadcast use vstd::std_specs::vec::group_vec_axioms, vstd::seq::group_seq_axioms;

/// A structured document value. Numbers keep their literal spelling so that
/// no precision is lost and no floating point enters the library.
#[derive(Debug)]
pub enum JsonValue {
    Null,
    Bool(bool),
    Num(String),
    Str(String),
    Arr(Vec<JsonValue>),
    Obj(Vec<(String, JsonValue)>),
}

/// The mathematical model of a document value.
pub enum JsonModel {
    Null,
    Bool(bool),
    Num(Seq<char>),
    Str(Seq<char>),
    Arr(Seq<JsonModel>),
    Obj(Seq<(Seq<char>, JsonModel)>),
}

pub open spec fn model_of(v: JsonValue) -> JsonModel
    decreases v,
{
    match v {
        JsonValue::Null => JsonModel::Null,
        JsonValue::Bool(b) => JsonModel::Bool(b),
        JsonValue::Num(s) => JsonModel::Num(s@),
        JsonValue::Str(s) => JsonModel::Str(s@),
        JsonValue::Arr(items) => JsonModel::Arr(models_of(items@)),
        JsonValue::Obj(members) => JsonModel::Obj(member_models_of(members@)),
    }
}

pub open spec fn models_of(items: Seq<JsonValue>) -> Seq<JsonModel>
    decreases items,
{
    if items.len() == 0 {
        Seq::empty()
    } else {
        models_of(items.drop_last()).push(model_of(items.last()))
    }
}

pub open spec fn member_models_of(members: Seq<(String, JsonValue)>) -> Seq<
    (Seq<char>, JsonModel),
>
    decreases members,
{
    if members.len() == 0 {
        Seq::empty()
    } else {
        member_models_of(members.drop_last()).push(
            (members.last().0@, model_of(members.last().1)),
        )
    }
}

impl View for JsonValue {
    type V = JsonModel;

    open spec fn view(&self) -> JsonModel {
        model_of(*self)
    }
}

pub proof fn lemma_models_of(items: Seq<JsonValue>)
    ensures
        models_of(items).len() == items.len(),
        forall|i: int| 0 <= i < items.len() ==> models_of(items)[i] == model_of(#[trigger] items[i]),
    decreases items,
{
    if items.len() > 0 {
        lemma_models_of(items.drop_last());
        assert(forall|i: int|
            0 <= i < items.len() - 1 ==> #[trigger] items[i] == items.drop_last()[i]);
    }
}

pub proof fn lemma_member_models_of(members: Seq<(String, JsonValue)>)
    ensures
        member_models_of(members).len() == members.len(),
        forall|i: int|
            0 <= i < members.len() ==> member_models_of(members)[i] == (
                (#[trigger] members[i]).0@,
                model_of(members[i].1),
            ),
    decreases members,
{
    if members.len() > 0 {
        lemma_member_models_of(members.drop_last());
        assert(forall|i: int|
            0 <= i < members.len() - 1 ==> #[trigger] members[i] == members.drop_last()[i]);
    }
}

/// Lexicographic order on character sequences by unicode scalar value;
/// the order behind every canonically sorted name map in the library.
pub open spec fn lex_lt(a: Seq<char>, b: Seq<char>) -> bool
    decreases a.len(),
{
    if b.len() == 0 {
        false
    } else if a.len() == 0 {
        true
    } else if a[0] == b[0] {
        lex_lt(a.drop_first(), b.drop_first())
    } else {
        (a[0] as u32) < (b[0] as u32)
    }
}

pub proof fn lemma_lex_trans(a: Seq<char>, b: Seq<char>, c: Seq<char>)
    requires
        lex_lt(a, b),
        lex_lt(b, c),
    ensures
        lex_lt(a, c),
    decreases a.len(),
{
    if b.len() == 0 || c.len() == 0 || a.len() == 0 {
    } else {
        if a[0] == b[0] {
            if b[0] == c[0] {
                lemma_lex_trans(a.drop_first(), b.drop_first(), c.drop_first());
            }
        }
    }
}

pub proof fn lemma_lex_trichotomy(a: Seq<char>, b: Seq<char>)
    ensures
        a == b || lex_lt(a, b) || lex_lt(b, a),
    decreases a.len(),
{
    if a.len() == 0 && b.len() == 0 {
        assert(a =~= b);
    } else if a.len() == 0 || b.len() == 0 {
    } else if a[0] == b[0] {
        lemma_lex_trichotomy(a.drop_first(), b.drop_first());
        if a.drop_first() == b.drop_first() {
            assert(a =~= seq![a[0]] + a.drop_first());
            assert(b =~= seq![b[0]] + b.drop_first());
        }
    } else {
        vstd::utf8::char_u32_cast(a[0], a[0] as u32);
        vstd::utf8::char_u32_cast(b[0], b[0] as u32);
        assert((a[0] as u32) != (b[0] as u32));
    }
}

/// Name-to-value lookup in an association sequence; on a duplicated name the
/// later entry wins, as it does in the JSON documents the library reads.
pub open spec fn lookup<V>(entries: Seq<(Seq<char>, V)>, name: Seq<char>) -> Option<V>
    decreases entries,
{
    if entries.len() == 0 {
        None
    } else if entries.last().0 == name {
        Some(entries.last().1)
    } else {
        lookup(entries.drop_last(), name)
    }
}

pub open spec fn has_name<V>(entries: Seq<(Seq<char>, V)>, name: Seq<char>) -> bool {
    lookup(entries, name) is Some
}

/// Entries strictly sorted by name: the canonical shape of every map.
pub open spec fn sorted_unique<V>(entries: Seq<(Seq<char>, V)>) -> bool {
    forall|i: int, j: int|
        0 <= i < j < entries.len() ==> lex_lt((#[trigger] entries[i]).0, (#[trigger] entries[j]).0)
}

/// Sorted insertion, overwriting an entry of the same name.
pub open spec fn insert_entry_spec<V>(
    entries: Seq<(Seq<char>, V)>,
    name: Seq<char>,
    value: V,
) -> Seq<(Seq<char>, V)>
    decreases entries,
{
    if entries.len() == 0 {
        seq![(name, value)]
    } else if lex_lt(entries.last().0, name) {
        entries.push((name, value))
    } else if entries.last().0 == name {
        entries.drop_last().push((name, value))
    } else {
        insert_entry_spec(entries.drop_last(), name, value).push(entries.last())
    }
}

pub open spec fn entries_view<V: View>(s: Seq<(String, V)>) -> Seq<(Seq<char>, V::V)> {
    Seq::new(s.len(), |i: int| (s[i].0@, s[i].1@))
}

/// Executable lexicographic comparison on strings.
pub fn str_seq_lt(a: &str, b: &str) -> (r: bool)
    ensures
        r == lex_lt(a@, b@),
    decreases a@.len(),
{
    let alen = a.unicode_len();
    let blen = b.unicode_len();
    if blen == 0 {
        false
    } else if alen == 0 {
        true
    } else {
        let ca = a.get_char(0);
        let cb = b.get_char(0);
        if ca == cb {
            let ar = a.substring_char(1, alen);
            let br = b.substring_char(1, blen);
            proof {
                assert(ar@ =~= a@.drop_first());
                assert(br@ =~= b@.drop_first());
            }
            str_seq_lt(ar, br)
        } else {
            (ca as u32) < (cb as u32)
        }
    }
}

/// Executable character-wise string equality.
pub fn str_eq(a: &str, b: &str) -> (r: bool)
    ensures
        r == (a@ == b@),
{
    let alen = a.unicode_len();
    let blen = b.unicode_len();
    if alen != blen {
        return false;
    }
    let mut i: usize = 0;
    while i < alen
        invariant
            alen == a@.len(),
            blen == b@.len(),
            alen == blen,
            i <= alen,
            forall|k: int| 0 <= k < i ==> a@[k] == b@[k],
        decreases alen - i,
    {
        if a.get_char(i) != b.get_char(i) {
            return false;
        }
        i = i + 1;
    }
    proof {
        assert(a@ =~= b@);
    }
    true
}

/// Executable sorted insertion into an association vector, mirroring
/// `insert_entry_spec`.
pub fn insert_entry<V: View>(entries: &mut Vec<(String, V)>, name: String, value: V)
    ensures
        entries_view(final(entries)@) == insert_entry_spec(
            entries_view(old(entries)@),
            name@,
            value@,
        ),
    decreases old(entries)@.len(),
{
    let ghost orig = entries_view(entries@);
    let n = entries.len();
    if n == 0 {
        entries.push((name, value));
        proof {
            assert(entries_view(entries@) =~= insert_entry_spec(orig, name@, value@));
        }
    } else if str_seq_lt(entries[n - 1].0.as_str(), name.as_str()) {
        proof {
            assert(orig.last().0 == entries@[n - 1 as int].0@);
        }
        entries.push((name, value));
        proof {
            assert(entries_view(entries@) =~= orig.push((name@, value@)));
        }
    } else if entries[n - 1].0 == name {
        entries.set(n - 1, (name, value));
        proof {
            assert(entries_view(entries@) =~= orig.drop_last().push((name@, value@)));
        }
    } else {
        if let Some(last) = entries.pop() {
            insert_entry(entries, name, value);
            let ghost mid = entries_view(entries@);
            entries.push(last);
            proof {
                assert(orig.drop_last() =~= entries_view(old(entries)@.drop_last()));
                assert(entries_view(entries@) =~= mid.push((last.0@, last.1@)));
                assert((last.0@, last.1@) == orig.last());
            }
        }
    }
}

/// Looks a member up by name in an object's member list; the later entry
/// wins, as in `lookup`.
pub fn obj_get<'a>(members: &'a Vec<(String, JsonValue)>, name: &str) -> (r: Option<
    &'a JsonValue,
>)
    ensures
        match r {
            Option::Some(v) => lookup(member_models_of(members@), name@) == Option::Some(v@),
            Option::None => lookup(member_models_of(members@), name@) is None,
        },
{
    let ghost mm = member_models_of(members@);
    proof {
        lemma_member_models_of(members@);
        assert(mm.take(members@.len() as int) =~= mm);
    }
    let mut j = members.len();
    while j > 0
        invariant
            j <= members.len(),
            mm == member_models_of(members@),
            mm.len() == members@.len(),
            forall|i: int|
                0 <= i < members@.len() ==> mm[i] == ((#[trigger] members@[i]).0@, model_of(
                    members@[i].1,
                )),
            lookup(mm, name@) == lookup(mm.take(j as int), name@),
        decreases j,
    {
        proof {
            assert(mm.take(j as int).last() == mm[j - 1]);
            assert(mm.take(j as int).drop_last() =~= mm.take(j - 1));
        }
        if str_eq(members[j - 1].0.as_str(), name) {
            return Some(&members[j - 1].1);
        }
        j = j - 1;
    }
    proof {
        assert(mm.take(0) =~= Seq::<(Seq<char>, JsonModel)>::empty());
    }
    None
}

/// Escaping of one character inside a JSON string literal.
pub open spec fn esc_char(c: char) -> Seq<char> {
    if c == '"' {
        seq!['\\', '"']
    } else if c == '\\' {
        seq!['\\', '\\']
    } else if c == '\n' {
        seq!['\\', 'n']
    } else if c == '\t' {
        seq!['\\', 't']
    } else if c == '\r' {
        seq!['\\', 'r']
    } else if (c as u32) < 0x20 {
        seq!['\\', 'u', '0', '0', hex_digit(((c as u32) / 16) as nat), hex_digit(
            ((c as u32) % 16) as nat,
        )]
    } else {
        seq![c]
    }
}

pub open spec fn hex_digit(n: nat) -> char {
    if n == 0 { '0' } else if n == 1 { '1' } else if n == 2 { '2' } else if n == 3 { '3' }
    else if n == 4 { '4' } else if n == 5 { '5' } else if n == 6 { '6' } else if n == 7 { '7' }
    else if n == 8 { '8' } else if n == 9 { '9' } else if n == 10 { 'a' } else if n == 11 { 'b' }
    else if n == 12 { 'c' } else if n == 13 { 'd' } else if n == 14 { 'e' } else { 'f' }
}

pub open spec fn escape(s: Seq<char>) -> Seq<char>
    decreases s,
{
    if s.len() == 0 {
        Seq::empty()
    } else {
        escape(s.drop_last()) + esc_char(s.last())
    }
}

/// A quoted, escaped JSON string literal.
pub open spec fn quoted(s: Seq<char>) -> Seq<char> {
    seq!['"'] + escape(s) + seq!['"']
}

/// Canonical text of a document. `ind` is the indentation in force for the
/// line on which members of the value are laid out; two further spaces are
/// added for each nesting level.
pub open spec fn render(m: JsonModel, ind: Seq<char>) -> Seq<char>
    decreases m,
{
    match m {
        JsonModel::Null => seq!['n', 'u', 'l', 'l'],
        JsonModel::Bool(b) => if b {
            seq!['t', 'r', 'u', 'e']
        } else {
            seq!['f', 'a', 'l', 's', 'e']
        },
        JsonModel::Num(s) => s,
        JsonModel::Str(s) => quoted(s),
        JsonModel::Arr(items) => {
            if items.len() == 0 {
                seq!['[', ']']
            } else {
                seq!['['] + render_items(items, ind + seq![' ', ' ']) + seq!['\n'] + ind + seq![
                    ']',
                ]
            }
        },
        JsonModel::Obj(members) => {
            if members.len() == 0 {
                seq!['{', '}']
            } else {
                seq!['{'] + render_members(members, ind + seq![' ', ' ']) + seq!['\n'] + ind
                    + seq!['}']
            }
        },
    }
}

pub open spec fn render_items(items: Seq<JsonModel>, ind: Seq<char>) -> Seq<char>
    decreases items,
{
    if items.len() == 0 {
        Seq::empty()
    } else {
        render_items(items.drop_last(), ind) + (if items.len() > 1 {
            seq![',']
        } else {
            Seq::empty()
        }) + seq!['\n'] + ind + render(items.last(), ind)
    }
}

pub open spec fn render_members(members: Seq<(Seq<char>, JsonModel)>, ind: Seq<char>) -> Seq<char>
    decreases members,
{
    if members.len() == 0 {
        Seq::empty()
    } else {
        render_members(members.drop_last(), ind) + (if members.len() > 1 {
            seq![',']
        } else {
            Seq::empty()
        }) + seq!['\n'] + ind + quoted(members.last().0) + seq![':', ' '] + render(
            members.last().1,
            ind,
        )
    }
}

/// Relies on `core::iter::Iterator::collect` through `FromIterator` for
/// `String`: collecting the characters of a vector yields the string of
/// exactly those characters in order.
#[verifier::external_body]
pub fn string_from_chars(v: Vec<char>) -> (r: String)
    ensures
        r@ == v@,
{
    v.into_iter().collect()
}

/// Appends the characters of a string to a character vector.
pub fn push_str_chars(out: &mut Vec<char>, s: &str)
    ensures
        final(out)@ == old(out)@ + s@,
{
    let n = s.unicode_len();
    let mut i: usize = 0;
    while i < n
        invariant
            n == s@.len(),
            i <= n,
            out@ == old(out)@ + s@.take(i as int),
        decreases n - i,
    {
        out.push(s.get_char(i));
        i = i + 1;
        proof {
            assert(out@ =~= old(out)@ + s@.take(i as int));
        }
    }
    proof {
        assert(old(out)@ + s@.take(n as int) =~= old(out)@ + s@);
    }
}

/// Writes one character, escaped, mirroring `esc_char`.
fn write_escaped_char(out: &mut Vec<char>, c: char)
    ensures
        final(out)@ == old(out)@ + esc_char(c),
{
    if c == '"' {
        out.push('\\');
        out.push('"');
    } else if c == '\\' {
        out.push('\\');
        out.push('\\');
    } else if c == '\n' {
        out.push('\\');
        out.push('n');
    } else if c == '\t' {
        out.push('\\');
        out.push('t');
    } else if c == '\r' {
        out.push('\\');
        out.push('r');
    } else if (c as u32) < 0x20 {
        out.push('\\');
        out.push('u');
        out.push('0');
        out.push('0');
        out.push(hex_digit_exec((c as u32 / 16) as u8));
        out.push(hex_digit_exec((c as u32 % 16) as u8));
    } else {
        out.push(c);
    }
    proof {
        assert(final(out)@ =~= old(out)@ + esc_char(c));
    }
}

fn hex_digit_exec(n: u8) -> (r: char)
    requires
        n < 16,
    ensures
        r == hex_digit(n as nat),
{
    if n == 0 { '0' } else if n == 1 { '1' } else if n == 2 { '2' } else if n == 3 { '3' }
    else if n == 4 { '4' } else if n == 5 { '5' } else if n == 6 { '6' } else if n == 7 { '7' }
    else if n == 8 { '8' } else if n == 9 { '9' } else if n == 10 { 'a' } else if n == 11 { 'b' }
    else if n == 12 { 'c' } else if n == 13 { 'd' } else if n == 14 { 'e' } else { 'f' }
}

/// Writes a quoted, escaped string literal, mirroring `quoted`.
pub fn write_quoted(out: &mut Vec<char>, s: &str)
    ensures
        final(out)@ == old(out)@ + quoted(s@),
{
    out.push('"');
    let n = s.unicode_len();
    let mut i: usize = 0;
    while i < n
        invariant
            n == s@.len(),
            i <= n,
            out@ == old(out)@ + seq!['"'] + escape(s@.take(i as int)),
        decreases n - i,
    {
        write_escaped_char(out, s.get_char(i));
        i = i + 1;
        proof {
            assert(s@.take(i as int).drop_last() =~= s@.take(i - 1));
            assert(out@ =~= old(out)@ + seq!['"'] + escape(s@.take(i as int)));
        }
    }
    out.push('"');
    proof {
        assert(s@.take(n as int) =~= s@);
        assert(final(out)@ =~= old(out)@ + quoted(s@));
    }
}

/// Writes the canonical text of a value, mirroring `render`.
#[verifier::loop_isolation(false)]
#[verifier::rlimit(100)]
#[verifier::spinoff_prover]
pub fn write_value(v: &JsonValue, ind: &Vec<char>, out: &mut Vec<char>)
    ensures
        final(out)@ == old(out)@ + render(v@, ind@),
    decreases *v,
{
    match v {
        JsonValue::Null => {
            out.push('n');
            out.push('u');
            out.push('l');
            out.push('l');
            proof {
                assert(final(out)@ =~= old(out)@ + render(v@, ind@));
            }
        },
        JsonValue::Bool(b) => {
            if *b {
                out.push('t');
                out.push('r');
                out.push('u');
                out.push('e');
            } else {
                out.push('f');
                out.push('a');
                out.push('l');
                out.push('s');
                out.push('e');
            }
            proof {
                assert(final(out)@ =~= old(out)@ + render(v@, ind@));
            }
        },
        JsonValue::Num(s) => {
            push_str_chars(out, s.as_str());
        },
        JsonValue::Str(s) => {
            write_quoted(out, s.as_str());
        },
        JsonValue::Arr(items) => {
            if items.len() == 0 {
                out.push('[');
                out.push(']');
                proof {
                    assert(final(out)@ =~= old(out)@ + render(v@, ind@));
                }
            } else {
                let ghost models = models_of(items@);
                proof {
                    lemma_models_of(items@);
                }
                out.push('[');
                let mut ind2 = ind.clone();
                ind2.push(' ');
                ind2.push(' ');
                proof {
                    assert(ind2@ =~= ind@ + seq![' ', ' ']);
                }
                let n = items.len();
                let mut i: usize = 0;
                while i < n
                    invariant
                        n == items@.len(),
                        i <= n,
                        models == models_of(items@),
                        models.len() == n,
                        forall|k: int| 0 <= k < n ==> models[k] == model_of(#[trigger] items@[k]),
                        ind2@ == ind@ + seq![' ', ' '],
                        out@ == old(out)@ + seq!['['] + render_items(models.take(i as int), ind2@),
                    decreases n - i,
                {
                    if i > 0 {
                        out.push(',');
                    }
                    out.push('\n');
                    push_str_chars_vec(out, &ind2);
                    proof {
                        assert(decreases_to!(*items => items@));
                        assert(decreases_to!(items@ => items@[i as int]));
                    }
                    write_value(&items[i], &ind2, out);
                    i = i + 1;
                    proof {
                        assert(models.take(i as int).drop_last() =~= models.take(i - 1));
                        assert(models.take(i as int).last() == models[i - 1]);
                        assert(out@ =~= old(out)@ + seq!['['] + render_items(
                            models.take(i as int),
                            ind2@,
                        ));
                    }
                }
                out.push('\n');
                push_str_chars_vec(out, ind);
                out.push(']');
                proof {
                    assert(models.take(n as int) =~= models);
                    assert(final(out)@ =~= old(out)@ + render(v@, ind@));
                }
            }
        },
        JsonValue::Obj(members) => {
            if members.len() == 0 {
                out.push('{');
                out.push('}');
                proof {
                    assert(final(out)@ =~= old(out)@ + render(v@, ind@));
                }
            } else {
                let ghost models = member_models_of(members@);
                proof {
                    lemma_member_models_of(members@);
                }
                out.push('{');
                let mut ind2 = ind.clone();
                ind2.push(' ');
                ind2.push(' ');
                proof {
                    assert(ind2@ =~= ind@ + seq![' ', ' ']);
                }
                let n = members.len();
                let mut i: usize = 0;
                while i < n
                    invariant
                        n == members@.len(),
                        i <= n,
                        models == member_models_of(members@),
                        models.len() == n,
                        forall|k: int|
                            0 <= k < n ==> models[k] == ((#[trigger] members@[k]).0@, model_of(
                                members@[k].1,
                            )),
                        ind2@ == ind@ + seq![' ', ' '],
                        out@ == old(out)@ + seq!['{'] + render_members(
                            models.take(i as int),
                            ind2@,
                        ),
                    decreases n - i,
                {
                    if i > 0 {
                        out.push(',');
                    }
                    out.push('\n');
                    push_str_chars_vec(out, &ind2);
                    write_quoted(out, members[i].0.as_str());
                    out.push(':');
                    out.push(' ');
                    proof {
                        assert(decreases_to!(*members => members@));
                        assert(decreases_to!(members@ => members@[i as int]));
                        assert(decreases_to!(members@[i as int] => members@[i as int].1));
                    }
                    write_value(&members[i].1, &ind2, out);
                    i = i + 1;
                    proof {
                        assert(models.take(i as int).drop_last() =~= models.take(i - 1));
                        assert(models.take(i as int).last() == models[i - 1]);
                        assert(out@ =~= old(out)@ + seq!['{'] + render_members(
                            models.take(i as int),
                            ind2@,
                        ));
                    }
                }
                out.push('\n');
                push_str_chars_vec(out, ind);
                out.push('}');
                proof {
                    assert(models.take(n as int) =~= models);
                    assert(final(out)@ =~= old(out)@ + render(v@, ind@));
                }
            }
        },
    }
}

/// Appends the contents of one character vector to another.
pub fn push_str_chars_vec(out: &mut Vec<char>, s: &Vec<char>)
    ensures
        final(out)@ == old(out)@ + s@,
{
    let n = s.len();
    let mut i: usize = 0;
    while i < n
        invariant
            n == s@.len(),
            i <= n,
            out@ == old(out)@ + s@.take(i as int),
        decreases n - i,
    {
        out.push(s[i]);
        i = i + 1;
        proof {
            assert(out@ =~= old(out)@ + s@.take(i as int));
        }
    }
    proof {
        assert(old(out)@ + s@.take(n as int) =~= old(out)@ + s@);
    }
}

/// Canonical text of a whole document: rendered at zero indentation.
pub fn render_document(v: &JsonValue) -> (r: String)
    ensures
        r@ == render(v@, Seq::empty()),
{
    let ind: Vec<char> = Vec::new();
    let mut out: Vec<char> = Vec::new();
    write_value(v, &ind, &mut out);
    proof {
        assert(out@ =~= render(v@, Seq::empty()));
    }
    string_from_chars(out)
}

/// Deep copy of a document value.
#[verifier::loop_isolation(false)]
pub fn clone_json(v: &JsonValue) -> (r: JsonValue)
    ensures
        r@ == v@,
    decreases *v,
{
    match v {
        JsonValue::Null => JsonValue::Null,
        JsonValue::Bool(b) => JsonValue::Bool(*b),
        JsonValue::Num(s) => JsonValue::Num(s.clone()),
        JsonValue::Str(s) => JsonValue::Str(s.clone()),
        JsonValue::Arr(items) => {
            proof {
                lemma_models_of(items@);
            }
            let n = items.len();
            let mut acc: Vec<JsonValue> = Vec::new();
            let mut i: usize = 0;
            proof {
                assert(models_of(acc@) =~= models_of(items@).take(0));
            }
            while i < n
                invariant
                    i <= n,
                    models_of(acc@) == models_of(items@).take(i as int),
                decreases n - i,
            {
                proof {
                    assert(decreases_to!(*items => items@));
                    assert(decreases_to!(items@ => items@[i as int]));
                }
                let c = clone_json(&items[i]);
                let ghost prev = acc@;
                acc.push(c);
                i = i + 1;
                proof {
                    assert(acc@.drop_last() =~= prev);
                    assert(models_of(items@).take(i as int).drop_last() =~= models_of(
                        items@,
                    ).take(i - 1));
                    assert(models_of(acc@) =~= models_of(items@).take(i as int));
                }
            }
            proof {
                assert(models_of(items@).take(n as int) =~= models_of(items@));
            }
            JsonValue::Arr(acc)
        },
        JsonValue::Obj(members) => {
            proof {
                lemma_member_models_of(members@);
            }
            let n = members.len();
            let mut acc: Vec<(String, JsonValue)> = Vec::new();
            let mut i: usize = 0;
            proof {
                assert(member_models_of(acc@) =~= member_models_of(members@).take(0));
            }
            while i < n
                invariant
                    i <= n,
                    member_models_of(acc@) == member_models_of(members@).take(i as int),
                decreases n - i,
            {
                proof {
                    assert(decreases_to!(*members => members@));
                    assert(decreases_to!(members@ => members@[i as int]));
                    assert(decreases_to!(members@[i as int] => members@[i as int].1));
                }
                let c = clone_json(&members[i].1);
                let ghost prev = acc@;
                acc.push((members[i].0.clone(), c));
                i = i + 1;
                proof {
                    assert(acc@.drop_last() =~= prev);
                    assert(member_models_of(members@).take(i as int).drop_last()
                        =~= member_models_of(members@).take(i - 1));
                    assert(member_models_of(acc@) =~= member_models_of(members@).take(i as int));
                }
            }
            proof {
                assert(member_models_of(members@).take(n as int) =~= member_models_of(members@));
            }
            JsonValue::Obj(acc)
        },
    }
}

} // verus!

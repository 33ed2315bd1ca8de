//! Document trees in a JSON-like shape, their mathematical counterpart,
//! and a deterministic textual encoding. Schema synthesis and persistence
//! both reduce to building such a tree and encoding it, so byte-identical
//! output for equal trees is immediate: the encoding is a function of the
//! tree alone.

use vstd::prelude::*;
use vstd::string::StrSliceExecFns;
use vstd::string::StringExecFns;

verus! {

broadcast use vstd::std_specs::vec::group_vec_axioms, vstd::seq::axiom_seq_index_decreases,
    vstd::seq::axiom_seq_subrange_decreases;

/// A document tree: the wire shape that permission definitions, capability
/// declarations, manifests and the synthesized schema are exchanged in.
pub enum JsonValue {
    Null,
    Bool(bool),
    Int(i64),
    Str(String),
    Arr(Vec<JsonValue>),
    Obj(Vec<(String, JsonValue)>),
}

/// Mathematical counterpart of `JsonValue`, over character sequences.
pub enum SpecJson {
    Null,
    Bool(bool),
    Int(int),
    Str(Seq<char>),
    Arr(Seq<SpecJson>),
    Obj(Seq<(Seq<char>, SpecJson)>),
}

/// The abstraction of a document tree.
pub open spec fn json_view(v: JsonValue) -> SpecJson
    decreases v,
{
    match v {
        JsonValue::Null => SpecJson::Null,
        JsonValue::Bool(b) => SpecJson::Bool(b),
        JsonValue::Int(i) => SpecJson::Int(i as int),
        JsonValue::Str(s) => SpecJson::Str(s@),
        JsonValue::Arr(items) => SpecJson::Arr(json_view_seq(items@)),
        JsonValue::Obj(members) => SpecJson::Obj(json_view_members(members@)),
    }
}

pub open spec fn json_view_seq(s: Seq<JsonValue>) -> Seq<SpecJson>
    decreases s,
{
    if s.len() == 0 {
        Seq::empty()
    } else {
        json_view_seq(s.drop_last()).push(json_view(s.last()))
    }
}

pub open spec fn json_view_members(s: Seq<(String, JsonValue)>) -> Seq<(Seq<char>, SpecJson)>
    decreases s,
{
    if s.len() == 0 {
        Seq::empty()
    } else {
        json_view_members(s.drop_last()).push((s.last().0@, json_view(s.last().1)))
    }
}

/// Pointwise reading of `json_view_seq`.
pub proof fn lemma_json_view_seq_elts(s: Seq<JsonValue>)
    ensures
        json_view_seq(s).len() == s.len(),
        forall|i: int| 0 <= i < s.len() ==> json_view_seq(s)[i] == json_view(s[i]),
    decreases s.len(),
{
    if s.len() > 0 {
        lemma_json_view_seq_elts(s.drop_last());
    }
}

/// Pointwise reading of `json_view_members`.
pub proof fn lemma_json_view_members_elts(s: Seq<(String, JsonValue)>)
    ensures
        json_view_members(s).len() == s.len(),
        forall|i: int|
            0 <= i < s.len() ==> json_view_members(s)[i] == (s[i].0@, json_view(s[i].1)),
    decreases s.len(),
{
    if s.len() > 0 {
        lemma_json_view_members_elts(s.drop_last());
    }
}

impl View for JsonValue {
    type V = SpecJson;

    open spec fn view(&self) -> SpecJson {
        json_view(*self)
    }
}

/// Decimal digit as a character.
pub open spec fn spec_digit(d: int) -> char {
    seq!['0', '1', '2', '3', '4', '5', '6', '7', '8', '9', 'a', 'b', 'c', 'd', 'e', 'f'][d]
}

/// Decimal text of a nonnegative integer.
pub open spec fn spec_nat_text(n: int) -> Seq<char>
    decreases n,
{
    if n < 10 {
        seq![spec_digit(if n < 0 { 0 } else { n })]
    } else {
        spec_nat_text(n / 10) + seq![spec_digit(n % 10)]
    }
}

/// Decimal text of an integer, with a leading minus sign when negative.
pub open spec fn spec_int_text(n: int) -> Seq<char> {
    if n < 0 {
        seq!['-'] + spec_nat_text(-n)
    } else {
        spec_nat_text(n)
    }
}

/// The encoding of one character inside a quoted string.
pub open spec fn spec_escape_char(c: char) -> Seq<char> {
    if c == '"' {
        seq!['\\', '"']
    } else if c == '\\' {
        seq!['\\', '\\']
    } else if c == '\n' {
        seq!['\\', 'n']
    } else if c == '\r' {
        seq!['\\', 'r']
    } else if c == '\t' {
        seq!['\\', 't']
    } else if (c as u32) < 32 {
        seq!['\\', 'u', '0', '0', spec_digit((c as u32) as int / 16), spec_digit(
            (c as u32) as int % 16,
        )]
    } else {
        seq![c]
    }
}

/// The encoding of a string's characters (without the surrounding quotes).
pub open spec fn spec_escape(s: Seq<char>) -> Seq<char>
    decreases s.len(),
{
    if s.len() == 0 {
        Seq::empty()
    } else {
        spec_escape_char(s[0]) + spec_escape(s.subrange(1, s.len() as int))
    }
}

pub proof fn lemma_escape_snoc(s: Seq<char>, c: char)
    ensures
        spec_escape(s.push(c)) == spec_escape(s) + spec_escape_char(c),
    decreases s.len(),
{
    let t = s.push(c);
    if s.len() == 0 {
        assert(t[0] == c);
        assert(t.subrange(1, t.len() as int) =~= Seq::<char>::empty());
        assert(spec_escape(t.subrange(1, t.len() as int)) =~= Seq::<char>::empty());
        assert(spec_escape(t) =~= spec_escape(s) + spec_escape_char(c));
    } else {
        assert(t[0] == s[0]);
        assert(t.subrange(1, t.len() as int) =~= s.subrange(1, s.len() as int).push(c));
        lemma_escape_snoc(s.subrange(1, s.len() as int), c);
        assert(spec_escape(t) == spec_escape_char(s[0]) + spec_escape(
            s.subrange(1, s.len() as int).push(c),
        ));
        assert(spec_escape(t) =~= spec_escape(s) + spec_escape_char(c));
    }
}

/// The text of a document tree: compact, comma-separated, object members
/// in the order they stand in the tree.
pub open spec fn json_text(v: SpecJson) -> Seq<char>
    decreases v,
{
    match v {
        SpecJson::Null => seq!['n', 'u', 'l', 'l'],
        SpecJson::Bool(b) => if b {
            seq!['t', 'r', 'u', 'e']
        } else {
            seq!['f', 'a', 'l', 's', 'e']
        },
        SpecJson::Int(i) => spec_int_text(i),
        SpecJson::Str(s) => seq!['"'] + spec_escape(s) + seq!['"'],
        SpecJson::Arr(items) => seq!['['] + json_text_items(items) + seq![']'],
        SpecJson::Obj(members) => seq!['{'] + json_text_members(members) + seq!['}'],
    }
}

pub open spec fn json_text_items(items: Seq<SpecJson>) -> Seq<char>
    decreases items,
{
    if items.len() == 0 {
        Seq::empty()
    } else if items.len() == 1 {
        json_text(items[0])
    } else {
        json_text_items(items.drop_last()) + seq![','] + json_text(items.last())
    }
}

pub open spec fn json_text_members(members: Seq<(Seq<char>, SpecJson)>) -> Seq<char>
    decreases members,
{
    if members.len() == 0 {
        Seq::empty()
    } else if members.len() == 1 {
        json_member_text(members[0])
    } else {
        json_text_members(members.drop_last()) + seq![','] + json_member_text(members.last())
    }
}

pub open spec fn json_member_text(m: (Seq<char>, SpecJson)) -> Seq<char>
    decreases m,
{
    seq!['"'] + spec_escape(m.0) + seq!['"', ':'] + json_text(m.1)
}

/// Decimal digit (or low hex digit) as a one-character string slice.
fn digit_str(d: u64) -> (r: &'static str)
    requires
        d < 16,
    ensures
        r@ == seq![spec_digit(d as int)],
{
    let r: &'static str = match d {
        0 => "0",
        1 => "1",
        2 => "2",
        3 => "3",
        4 => "4",
        5 => "5",
        6 => "6",
        7 => "7",
        8 => "8",
        9 => "9",
        10 => "a",
        11 => "b",
        12 => "c",
        13 => "d",
        14 => "e",
        _ => "f",
    };
    proof {
        reveal_strlit("0");
        reveal_strlit("1");
        reveal_strlit("2");
        reveal_strlit("3");
        reveal_strlit("4");
        reveal_strlit("5");
        reveal_strlit("6");
        reveal_strlit("7");
        reveal_strlit("8");
        reveal_strlit("9");
        reveal_strlit("a");
        reveal_strlit("b");
        reveal_strlit("c");
        reveal_strlit("d");
        reveal_strlit("e");
        reveal_strlit("f");
        assert(r@ =~= seq![spec_digit(d as int)]);
    }
    r
}

/// Appends the decimal text of `n`.
fn write_nat(n: u64, out: &mut String)
    ensures
        final(out)@ == old(out)@ + spec_nat_text(n as int),
    decreases n,
{
    if n < 10 {
        out.append(digit_str(n));
    } else {
        write_nat(n / 10, out);
        out.append(digit_str(n % 10));
        proof {
            assert(final(out)@ =~= old(out)@ + spec_nat_text(n as int));
        }
    }
}

/// Appends the decimal text of `i`, sign included.
fn write_int(i: i64, out: &mut String)
    ensures
        final(out)@ == old(out)@ + spec_int_text(i as int),
{
    if i < 0 {
        let m: u64 = ((-(i as i128)) as u64);
        out.append("-");
        proof {
            reveal_strlit("-");
            assert("-"@ =~= seq!['-']);
        }
        write_nat(m, out);
        proof {
            assert(final(out)@ =~= old(out)@ + spec_int_text(i as int));
        }
    } else {
        write_nat(i as u64, out);
    }
}

/// Appends the escaped text of `s` (no surrounding quotes).
fn write_escaped(s: &str, out: &mut String)
    ensures
        final(out)@ == old(out)@ + spec_escape(s@),
{
    let n = s.unicode_len();
    let mut i: usize = 0;
    proof {
        assert(s@.subrange(0, 0) =~= Seq::<char>::empty());
        assert(spec_escape(s@.subrange(0, 0)) =~= Seq::<char>::empty());
        assert(out@ =~= old(out)@ + spec_escape(s@.subrange(0, 0)));
    }
    while i < n
        invariant
            n == s@.len(),
            0 <= i <= n,
            out@ == old(out)@ + spec_escape(s@.subrange(0, i as int)),
        decreases n - i,
    {
        let c = s.get_char(i);
        if c == '"' {
            out.append("\\\"");
            proof {
                reveal_strlit("\\\"");
                assert("\\\""@ =~= spec_escape_char(c));
            }
        } else if c == '\\' {
            out.append("\\\\");
            proof {
                reveal_strlit("\\\\");
                assert("\\\\"@ =~= spec_escape_char(c));
            }
        } else if c == '\n' {
            out.append("\\n");
            proof {
                reveal_strlit("\\n");
                assert("\\n"@ =~= spec_escape_char(c));
            }
        } else if c == '\r' {
            out.append("\\r");
            proof {
                reveal_strlit("\\r");
                assert("\\r"@ =~= spec_escape_char(c));
            }
        } else if c == '\t' {
            out.append("\\t");
            proof {
                reveal_strlit("\\t");
                assert("\\t"@ =~= spec_escape_char(c));
            }
        } else if (c as u32) < 32 {
            let u = c as u32;
            out.append("\\u00");
            out.append(digit_str((u / 16) as u64));
            out.append(digit_str((u % 16) as u64));
            proof {
                reveal_strlit("\\u00");
                assert("\\u00"@ + seq![spec_digit(u as int / 16)] + seq![
                    spec_digit(u as int % 16),
                ] =~= spec_escape_char(c));
            }
        } else {
            let piece = s.substring_char(i, i + 1);
            out.append(piece);
            proof {
                assert(piece@ =~= seq![s@[i as int]]);
                assert(piece@ =~= spec_escape_char(c));
            }
        }
        proof {
            lemma_escape_snoc(s@.subrange(0, i as int), c);
            assert(s@.subrange(0, i + 1) =~= s@.subrange(0, i as int).push(c));
            assert(out@ =~= old(out)@ + spec_escape(s@.subrange(0, i + 1)));
        }
        i = i + 1;
    }
    proof {
        assert(s@.subrange(0, n as int) =~= s@);
    }
}

/// Appends the text of `v`.
pub fn write_json(v: &JsonValue, out: &mut String)
    ensures
        final(out)@ == old(out)@ + json_text(v@),
    decreases *v,
{
    match v {
        JsonValue::Null => {
            out.append("null");
            proof {
                reveal_strlit("null");
                assert("null"@ =~= seq!['n', 'u', 'l', 'l']);
            }
        },
        JsonValue::Bool(b) => {
            if *b {
                out.append("true");
                proof {
                    reveal_strlit("true");
                    assert("true"@ =~= seq!['t', 'r', 'u', 'e']);
                }
            } else {
                out.append("false");
                proof {
                    reveal_strlit("false");
                    assert("false"@ =~= seq!['f', 'a', 'l', 's', 'e']);
                }
            }
        },
        JsonValue::Int(i) => {
            write_int(*i, out);
        },
        JsonValue::Str(s) => {
            out.append("\"");
            write_escaped(s.as_str(), out);
            out.append("\"");
            proof {
                reveal_strlit("\"");
                assert("\""@ =~= seq!['"']);
                assert(final(out)@ =~= old(out)@ + json_text(v@));
            }
        },
        JsonValue::Arr(items) => {
            let ghost sv = json_view_seq(items@);
            out.append("[");
            proof {
                reveal_strlit("[");
                assert("["@ =~= seq!['[']);
                lemma_json_view_seq_elts(items@);
                assert(sv.subrange(0, 0) =~= Seq::<SpecJson>::empty());
                assert(out@ =~= old(out)@ + seq!['['] + json_text_items(sv.subrange(0, 0)));
            }
            let n = items.len();
            let mut i: usize = 0;
            while i < n
                invariant
                    n == items@.len(),
                    0 <= i <= n,
                    *v == JsonValue::Arr(*items),
                    sv == json_view_seq(items@),
                    sv.len() == n,
                    forall|k: int| 0 <= k < n ==> sv[k] == json_view(items@[k]),
                    out@ == old(out)@ + seq!['['] + json_text_items(sv.subrange(0, i as int)),
                decreases n - i,
            {
                if i > 0 {
                    out.append(",");
                    proof {
                        reveal_strlit(",");
                        assert(","@ =~= seq![',']);
                    }
                }
                let ghost pre = out@;
                proof {
                    assert(decreases_to!(*v => v->Arr_0));
                    assert(v->Arr_0 == *items);
                    assert(decreases_to!(*items => items@));
                    assert(decreases_to!(items@ => items@[i as int]));
                }
                write_json(&items[i], out);
                proof {
                    assert(out@ =~= pre + json_text(sv[i as int]));
                    assert(sv.subrange(0, i + 1).drop_last() =~= sv.subrange(0, i as int));
                    assert(sv.subrange(0, i + 1).last() == sv[i as int]);
                    if i == 0 {
                        assert(json_text_items(sv.subrange(0, 1)) == json_text(sv[0]));
                        assert(out@ =~= old(out)@ + seq!['['] + json_text_items(
                            sv.subrange(0, i + 1),
                        ));
                    } else {
                        assert(json_text_items(sv.subrange(0, i + 1)) == json_text_items(
                            sv.subrange(0, i as int),
                        ) + seq![','] + json_text(sv[i as int]));
                        assert(out@ =~= old(out)@ + seq!['['] + json_text_items(
                            sv.subrange(0, i + 1),
                        ));
                    }
                }
                i = i + 1;
            }
            out.append("]");
            proof {
                reveal_strlit("]");
                assert("]"@ =~= seq![']']);
                assert(sv.subrange(0, n as int) =~= sv);
                assert(final(out)@ =~= old(out)@ + json_text(v@));
            }
        },
        JsonValue::Obj(members) => {
            let ghost sv = json_view_members(members@);
            out.append("{");
            proof {
                reveal_strlit("{");
                assert("{"@ =~= seq!['{']);
                lemma_json_view_members_elts(members@);
                assert(sv.subrange(0, 0) =~= Seq::<(Seq<char>, SpecJson)>::empty());
                assert(out@ =~= old(out)@ + seq!['{'] + json_text_members(sv.subrange(0, 0)));
            }
            let n = members.len();
            let mut i: usize = 0;
            while i < n
                invariant
                    n == members@.len(),
                    0 <= i <= n,
                    *v == JsonValue::Obj(*members),
                    sv == json_view_members(members@),
                    sv.len() == n,
                    forall|k: int| 0 <= k < n ==> sv[k] == (members@[k].0@, json_view(
                        members@[k].1,
                    )),
                    out@ == old(out)@ + seq!['{'] + json_text_members(sv.subrange(0, i as int)),
                decreases n - i,
            {
                if i > 0 {
                    out.append(",");
                    proof {
                        reveal_strlit(",");
                        assert(","@ =~= seq![',']);
                    }
                }
                let ghost pre = out@;
                out.append("\"");
                write_escaped(members[i].0.as_str(), out);
                out.append("\":");
                proof {
                    assert(decreases_to!(*v => v->Obj_0));
                    assert(v->Obj_0 == *members);
                    assert(decreases_to!(*members => members@));
                    assert(decreases_to!(members@ => members@[i as int]));
                    assert(decreases_to!(members@[i as int] => members@[i as int].1));
                }
                write_json(&members[i].1, out);
                proof {
                    reveal_strlit("\"");
                    reveal_strlit("\":");
                    assert("\""@ =~= seq!['"']);
                    assert("\":"@ =~= seq!['"', ':']);
                    assert(out@ =~= pre + seq!['"'] + spec_escape(members@[i as int].0@) + seq![
                        '"',
                        ':',
                    ] + json_text(json_view(members@[i as int].1)));
                    assert(out@ =~= pre + json_member_text(sv[i as int]));
                    assert(sv.subrange(0, i + 1).drop_last() =~= sv.subrange(0, i as int));
                    assert(sv.subrange(0, i + 1).last() == sv[i as int]);
                    if i == 0 {
                        assert(json_text_members(sv.subrange(0, 1)) == json_member_text(sv[0]));
                        assert(out@ =~= old(out)@ + seq!['{'] + json_text_members(
                            sv.subrange(0, i + 1),
                        ));
                    } else {
                        assert(json_text_members(sv.subrange(0, i + 1)) == json_text_members(
                            sv.subrange(0, i as int),
                        ) + seq![','] + json_member_text(sv[i as int]));
                        assert(out@ =~= old(out)@ + seq!['{'] + json_text_members(
                            sv.subrange(0, i + 1),
                        ));
                    }
                }
                i = i + 1;
            }
            out.append("}");
            proof {
                reveal_strlit("}");
                assert("}"@ =~= seq!['}']);
                assert(sv.subrange(0, n as int) =~= sv);
                assert(final(out)@ =~= old(out)@ + json_text(v@));
            }
        },
    }
}

/// The text of a document tree as a fresh string.
pub fn encode(v: &JsonValue) -> (r: String)
    ensures
        r@ == json_text(v@),
{
    let mut out = String::new();
    write_json(v, &mut out);
    proof {
        assert(out@ =~= json_text(v@));
    }
    out
}

pub(crate) fn jstr(t: &str) -> (r: JsonValue)
    ensures
        r@ == SpecJson::Str(t@),
{
    JsonValue::Str(t.to_owned())
}

pub(crate) fn jobj(members: Vec<(String, JsonValue)>) -> (r: JsonValue)
    ensures
        r@ == SpecJson::Obj(json_view_members(members@)),
{
    JsonValue::Obj(members)
}

pub(crate) fn jobj1(k1: &str, v1: JsonValue) -> (r: JsonValue)
    ensures
        r@ == SpecJson::Obj(seq![(k1@, v1@)]),
{
    let ghost g1 = v1@;
    let mut ms: Vec<(String, JsonValue)> = Vec::new();
    ms.push((k1.to_owned(), v1));
    proof {
        assert(ms@.drop_last() =~= Seq::<(String, JsonValue)>::empty());
        assert(json_view_members(ms@.drop_last()) =~= Seq::<(Seq<char>, SpecJson)>::empty());
        assert(json_view_members(ms@) =~= seq![(k1@, g1)]);
    }
    JsonValue::Obj(ms)
}

pub(crate) fn jobj2(k1: &str, v1: JsonValue, k2: &str, v2: JsonValue) -> (r: JsonValue)
    ensures
        r@ == SpecJson::Obj(seq![(k1@, v1@), (k2@, v2@)]),
{
    let ghost g1 = v1@;
    let ghost g2 = v2@;
    let mut ms: Vec<(String, JsonValue)> = Vec::new();
    ms.push((k1.to_owned(), v1));
    ms.push((k2.to_owned(), v2));
    proof {
        assert(ms@.drop_last() =~= seq![ms@[0]]);
        assert(seq![ms@[0]].drop_last() =~= Seq::<(String, JsonValue)>::empty());
        assert(json_view_members(seq![ms@[0]].drop_last()) =~= Seq::<(Seq<char>, SpecJson)>::empty());
        assert(json_view_members(seq![ms@[0]]) =~= seq![(k1@, g1)]);
        assert(json_view_members(ms@) =~= seq![(k1@, g1), (k2@, g2)]);
    }
    JsonValue::Obj(ms)
}

pub(crate) fn jobj3(k1: &str, v1: JsonValue, k2: &str, v2: JsonValue, k3: &str, v3: JsonValue) -> (r:
    JsonValue)
    ensures
        r@ == SpecJson::Obj(seq![(k1@, v1@), (k2@, v2@), (k3@, v3@)]),
{
    let ghost g1 = v1@;
    let ghost g2 = v2@;
    let ghost g3 = v3@;
    let mut ms: Vec<(String, JsonValue)> = Vec::new();
    ms.push((k1.to_owned(), v1));
    ms.push((k2.to_owned(), v2));
    ms.push((k3.to_owned(), v3));
    proof {
        assert(ms@.drop_last() =~= seq![ms@[0], ms@[1]]);
        assert(seq![ms@[0], ms@[1]].drop_last() =~= seq![ms@[0]]);
        assert(seq![ms@[0]].drop_last() =~= Seq::<(String, JsonValue)>::empty());
        assert(json_view_members(seq![ms@[0]].drop_last()) =~= Seq::<(Seq<char>, SpecJson)>::empty());
        assert(json_view_members(seq![ms@[0]]) =~= seq![(k1@, g1)]);
        assert(json_view_members(seq![ms@[0], ms@[1]]) =~= seq![(k1@, g1), (k2@, g2)]);
        assert(json_view_members(ms@) =~= seq![(k1@, g1), (k2@, g2), (k3@, g3)]);
    }
    JsonValue::Obj(ms)
}

pub(crate) fn jarr1(v1: JsonValue) -> (r: JsonValue)
    ensures
        r@ == SpecJson::Arr(seq![v1@]),
{
    let ghost g1 = v1@;
    let mut items: Vec<JsonValue> = Vec::new();
    items.push(v1);
    proof {
        assert(items@.drop_last() =~= Seq::<JsonValue>::empty());
        assert(json_view_seq(items@.drop_last()) =~= Seq::<SpecJson>::empty());
        assert(json_view_seq(items@) =~= seq![g1]);
    }
    JsonValue::Arr(items)
}

pub(crate) fn jarr(items: Vec<JsonValue>) -> (r: JsonValue)
    ensures
        r@ == SpecJson::Arr(json_view_seq(items@)),
{
    JsonValue::Arr(items)
}

/// After pushing one element, the sequence view grows by that element's
/// view.
pub(crate) proof fn lemma_view_seq_push(prev: Seq<JsonValue>, cur: Seq<JsonValue>)
    requires
        cur.len() == prev.len() + 1,
        cur == prev.push(cur[prev.len() as int]),
    ensures
        json_view_seq(cur) == json_view_seq(prev).push(json_view(cur[prev.len() as int])),
{
    assert(cur.drop_last() =~= prev);
    assert(json_view_seq(cur) =~= json_view_seq(prev).push(json_view(cur[prev.len() as int])));
}

pub(crate) proof fn lemma_view_seq_concat(a: Seq<JsonValue>, b: Seq<JsonValue>)
    ensures
        json_view_seq(a + b) == json_view_seq(a) + json_view_seq(b),
    decreases b.len(),
{
    if b.len() == 0 {
        assert(a + b =~= a);
        assert(json_view_seq(a + b) =~= json_view_seq(a) + json_view_seq(b));
    } else {
        lemma_view_seq_concat(a, b.drop_last());
        assert((a + b).drop_last() =~= a + b.drop_last());
        assert((a + b).last() == b.last());
        assert(json_view_seq(a + b) =~= json_view_seq(a) + json_view_seq(b));
    }
}

pub(crate) proof fn lemma_view_members_concat(a: Seq<(String, JsonValue)>, b: Seq<(String, JsonValue)>)
    ensures
        json_view_members(a + b) == json_view_members(a) + json_view_members(b),
    decreases b.len(),
{
    if b.len() == 0 {
        assert(a + b =~= a);
        assert(json_view_members(a + b) =~= json_view_members(a) + json_view_members(b));
    } else {
        lemma_view_members_concat(a, b.drop_last());
        assert((a + b).drop_last() =~= a + b.drop_last());
        assert((a + b).last() == b.last());
        assert(json_view_members(a + b) =~= json_view_members(a) + json_view_members(b));
    }
}

/// Structural copy of a document tree.
pub(crate) fn json_clone(v: &JsonValue) -> (r: JsonValue)
    ensures
        r@ == v@,
    decreases *v,
{
    match v {
        JsonValue::Null => JsonValue::Null,
        JsonValue::Bool(b) => JsonValue::Bool(*b),
        JsonValue::Int(i) => JsonValue::Int(*i),
        JsonValue::Str(t) => JsonValue::Str(t.clone()),
        JsonValue::Arr(items) => {
            let mut out: Vec<JsonValue> = Vec::new();
            let n = items.len();
            let mut i: usize = 0;
            proof {
                assert(json_view_seq(out@) =~= Seq::<SpecJson>::empty());
                assert(json_view_seq(items@.subrange(0, 0)) =~= Seq::<SpecJson>::empty());
            }
            while i < n
                invariant
                    *v == JsonValue::Arr(*items),
                    n == items@.len(),
                    0 <= i <= n,
                    out@.len() == i,
                    json_view_seq(out@) == json_view_seq(items@.subrange(0, i as int)),
                decreases n - i,
            {
                proof {
                    assert(decreases_to!(*v => v->Arr_0));
                    assert(v->Arr_0 == *items);
                    assert(decreases_to!(*items => items@));
                    assert(decreases_to!(items@ => items@[i as int]));
                }
                let ghost prev = out@;
                out.push(json_clone(&items[i]));
                proof {
                    lemma_view_seq_push(prev, out@);
                    assert(items@.subrange(0, i + 1).drop_last() =~= items@.subrange(0, i as int));
                    assert(json_view_seq(items@.subrange(0, i + 1)) =~= json_view_seq(
                        items@.subrange(0, i as int),
                    ).push(json_view(items@[i as int])));
                }
                i = i + 1;
            }
            proof {
                assert(items@.subrange(0, n as int) =~= items@);
            }
            JsonValue::Arr(out)
        },
        JsonValue::Obj(members) => {
            let mut out: Vec<(String, JsonValue)> = Vec::new();
            let n = members.len();
            let mut i: usize = 0;
            proof {
                assert(json_view_members(out@) =~= Seq::<(Seq<char>, SpecJson)>::empty());
                assert(json_view_members(members@.subrange(0, 0)) =~= Seq::<(
                    Seq<char>,
                    SpecJson,
                )>::empty());
            }
            while i < n
                invariant
                    *v == JsonValue::Obj(*members),
                    n == members@.len(),
                    0 <= i <= n,
                    out@.len() == i,
                    json_view_members(out@) == json_view_members(members@.subrange(0, i as int)),
                decreases n - i,
            {
                proof {
                    assert(decreases_to!(*v => v->Obj_0));
                    assert(v->Obj_0 == *members);
                    assert(decreases_to!(*members => members@));
                    assert(decreases_to!(members@ => members@[i as int]));
                    assert(decreases_to!(members@[i as int] => members@[i as int].1));
                }
                let ghost prev = out@;
                let key = members[i].0.clone();
                let val = json_clone(&members[i].1);
                out.push((key, val));
                proof {
                    assert(out@.drop_last() =~= prev);
                    assert(json_view_members(out@) =~= json_view_members(prev).push(
                        (members@[i as int].0@, json_view(members@[i as int].1)),
                    ));
                    assert(members@.subrange(0, i + 1).drop_last() =~= members@.subrange(
                        0,
                        i as int,
                    ));
                    assert(json_view_members(members@.subrange(0, i + 1)) =~= json_view_members(
                        members@.subrange(0, i as int),
                    ).push((members@[i as int].0@, json_view(members@[i as int].1))));
                }
                i = i + 1;
            }
            proof {
                assert(members@.subrange(0, n as int) =~= members@);
            }
            JsonValue::Obj(out)
        },
    }
}


} // verus!

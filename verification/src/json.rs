//! A JSON document model with a verified text printer and parser.
//!
//! Every document this crate exchanges — network configurations, replies,
//! key-value store envelopes, evaluated directives — is held as a
//! [`JsonValue`]. The printer emits a canonical text form (no whitespace,
//! minimal escapes) and the parser accepts general JSON text; parsing a
//! printed document yields the document back (see [`lemma_parse_print`]).
//!
//! Numbers are kept as their validated lexemes, so no precision is lost and
//! documents round-trip exactly.

use vstd::prelude::*;

use crate::text::{
    all_digits, chars_to_string, char_from_u32, dec_val, digit_val, is_digit, parse_u64_digits,
    str_to_chars,
};

verus! {

broadcast use {
    vstd::std_specs::vec::axiom_vec_index_decreases,
    vstd::std_specs::vec::axiom_vec_decreases_to_view,
    vstd::seq::axiom_seq_index_decreases,
    vstd::seq::axiom_seq_subrange_decreases,
    vstd::utf8::char_u32_cast,
};

/// The specification-level shape of a JSON document.
pub ghost enum JsonV {
    Null,
    Bool(bool),
    /// A number, kept as its decimal lexeme.
    Num(Seq<char>),
    Str(Seq<char>),
    Arr(Seq<JsonV>),
    Obj(Seq<(Seq<char>, JsonV)>),
}

/// A JSON document.
///
/// Object members keep their textual order; a lookup takes the first
/// binding of a key.
pub enum JsonValue {
    Null,
    Bool(bool),
    /// A number, kept as its decimal lexeme (see [`num_wf`]).
    Num(String),
    Str(String),
    Arr(Vec<JsonValue>),
    Obj(Vec<(String, JsonValue)>),
}

impl vstd::prelude::DeepView for JsonValue {
    type V = JsonV;

    open spec fn deep_view(&self) -> JsonV
        decreases self,
    {
        match self {
            JsonValue::Null => JsonV::Null,
            JsonValue::Bool(b) => JsonV::Bool(*b),
            JsonValue::Num(s) => JsonV::Num(s@),
            JsonValue::Str(s) => JsonV::Str(s@),
            JsonValue::Arr(a) => JsonV::Arr(deep_arr(a@)),
            JsonValue::Obj(o) => JsonV::Obj(deep_obj(o@)),
        }
    }
}

/// The deep views of a sequence of documents.
pub open spec fn deep_arr(a: Seq<JsonValue>) -> Seq<JsonV>
    decreases a,
{
    if a.len() == 0 {
        Seq::empty()
    } else {
        deep_arr(a.drop_last()).push(a.last().deep_view())
    }
}

/// The deep views of a sequence of object members.
pub open spec fn deep_obj(o: Seq<(String, JsonValue)>) -> Seq<(Seq<char>, JsonV)>
    decreases o,
{
    if o.len() == 0 {
        Seq::empty()
    } else {
        deep_obj(o.drop_last()).push((o.last().0@, o.last().1.deep_view()))
    }
}

pub proof fn lemma_deep_arr(a: Seq<JsonValue>)
    ensures
        deep_arr(a).len() == a.len(),
        forall|i: int| 0 <= i < a.len() ==> #[trigger] deep_arr(a)[i] == a[i].deep_view(),
    decreases a.len(),
{
    if a.len() > 0 {
        let q = deep_arr(a.drop_last());
        lemma_deep_arr(a.drop_last());
        assert(deep_arr(a) == q.push(a.last().deep_view()));
        assert forall|i: int| 0 <= i < a.len() implies #[trigger] deep_arr(a)[i]
            == a[i].deep_view() by {
            if i < a.len() - 1 {
                assert(a.drop_last()[i] == a[i]);
                assert(deep_arr(a)[i] == q[i]);
            } else {
                assert(a.last() == a[i]);
            }
        }
    }
}

pub proof fn lemma_deep_obj(o: Seq<(String, JsonValue)>)
    ensures
        deep_obj(o).len() == o.len(),
        forall|i: int| 0 <= i < o.len() ==> (#[trigger] deep_obj(o)[i]).0 == o[i].0@ && deep_obj(
            o,
        )[i].1 == o[i].1.deep_view(),
    decreases o.len(),
{
    if o.len() > 0 {
        let q = deep_obj(o.drop_last());
        lemma_deep_obj(o.drop_last());
        assert(deep_obj(o) == q.push((o.last().0@, o.last().1.deep_view())));
        assert forall|i: int| 0 <= i < o.len() implies (#[trigger] deep_obj(o)[i]).0 == o[i].0@
            && deep_obj(o)[i].1 == o[i].1.deep_view() by {
            if i < o.len() - 1 {
                assert(o.drop_last()[i] == o[i]);
                assert(deep_obj(o)[i] == q[i]);
            } else {
                assert(o.last() == o[i]);
            }
        }
    }
}

// ------------------------------------------------------------------
// Character classes
// ------------------------------------------------------------------

/// JSON whitespace.
pub open spec fn is_ws(c: char) -> bool {
    c == ' ' || c == '\t' || c == '\n' || c == '\r'
}

/// The characters a number lexeme may contain.
pub open spec fn is_num_char(c: char) -> bool {
    is_digit(c) || c == '-' || c == '+' || c == '.' || c == 'e' || c == 'E'
}

/// The characters that may follow a printed value inside a document.
pub open spec fn is_delim(c: char) -> bool {
    c == ',' || c == ']' || c == '}'
}

// ------------------------------------------------------------------
// Number lexemes
// ------------------------------------------------------------------

/// The first index at or after `i` that does not hold a decimal digit.
pub open spec fn digits_end(s: Seq<char>, i: int) -> int
    decreases s.len() - i when i <= s.len()
{
    if i < s.len() && is_digit(s[i]) {
        digits_end(s, i + 1)
    } else {
        i
    }
}

pub proof fn lemma_digits_end(s: Seq<char>, i: int)
    requires
        0 <= i <= s.len(),
    ensures
        i <= digits_end(s, i) <= s.len(),
        forall|x: int| i <= x < digits_end(s, i) ==> is_digit(#[trigger] s[x]),
        digits_end(s, i) < s.len() ==> !is_digit(s[digits_end(s, i)]),
    decreases s.len() - i,
{
    if i < s.len() && is_digit(s[i]) {
        lemma_digits_end(s, i + 1);
    }
}

/// Whether `s` is a well-formed JSON number lexeme:
/// an optional minus sign, an integer part without leading zeroes, an
/// optional fraction, and an optional exponent.
pub open spec fn num_wf(s: Seq<char>) -> bool {
    let i = if s.len() > 0 && s[0] == '-' {
        1int
    } else {
        0int
    };
    let j = if i < s.len() && s[i] == '0' {
        i + 1
    } else {
        digits_end(s, i)
    };
    let k = if j < s.len() && s[j] == '.' {
        digits_end(s, j + 1)
    } else {
        j
    };
    let e = if k < s.len() && (s[k] == 'e' || s[k] == 'E') {
        let e0 = if k + 1 < s.len() && (s[k + 1] == '+' || s[k + 1] == '-') {
            k + 2
        } else {
            k + 1
        };
        if digits_end(s, e0) > e0 {
            digits_end(s, e0)
        } else {
            k  // no digits after the exponent marker: reject below
        }
    } else {
        k
    };
    &&& i < s.len()
    &&& is_digit(s[i])
    &&& j > i
    &&& (j < s.len() && s[j] == '.' ==> k > j + 1)
    &&& (k < s.len() && (s[k] == 'e' || s[k] == 'E') ==> e > k)
    &&& e == s.len()
}

/// A well-formed number lexeme consists of number characters only.
pub proof fn lemma_num_wf_chars(s: Seq<char>)
    requires
        num_wf(s),
    ensures
        forall|x: int| 0 <= x < s.len() ==> is_num_char(#[trigger] s[x]),
        s.len() > 0,
        !is_ws(s[0]),
        s[0] == '-' || is_digit(s[0]),
{
    let i = if s.len() > 0 && s[0] == '-' {
        1int
    } else {
        0int
    };
    let j = if i < s.len() && s[i] == '0' {
        i + 1
    } else {
        digits_end(s, i)
    };
    lemma_digits_end(s, i);
    let k = if j < s.len() && s[j] == '.' {
        digits_end(s, j + 1)
    } else {
        j
    };
    if j < s.len() && s[j] == '.' {
        lemma_digits_end(s, j + 1);
    }
    if k < s.len() && (s[k] == 'e' || s[k] == 'E') {
        let e0 = if k + 1 < s.len() && (s[k + 1] == '+' || s[k + 1] == '-') {
            k + 2
        } else {
            k + 1
        };
        lemma_digits_end(s, e0);
    }
}

// ------------------------------------------------------------------
// Well-formed documents
// ------------------------------------------------------------------

/// Whether a document can be printed and parsed back: every number lexeme
/// is well formed.
pub open spec fn json_wf(v: JsonV) -> bool
    decreases v,
{
    match v {
        JsonV::Null => true,
        JsonV::Bool(_) => true,
        JsonV::Num(s) => num_wf(s),
        JsonV::Str(_) => true,
        JsonV::Arr(a) => forall|i: int| 0 <= i < a.len() ==> json_wf(#[trigger] a[i]),
        JsonV::Obj(o) => forall|i: int| 0 <= i < o.len() ==> json_wf(#[trigger] o[i].1),
    }
}

// ------------------------------------------------------------------
// Printing, in specification land
// ------------------------------------------------------------------

/// The lowercase hexadecimal digit for a value below sixteen.
pub open spec fn hex_char(n: nat) -> char
    recommends
        n < 16,
{
    seq![
        '0', '1', '2', '3', '4', '5', '6', '7', '8', '9', 'a', 'b', 'c', 'd', 'e', 'f',
    ][n as int]
}

/// The numeric value of a hexadecimal digit character.
pub open spec fn hex_val(c: char) -> nat {
    if is_digit(c) {
        digit_val(c)
    } else if 97 <= (c as u32) && (c as u32) <= 102 {
        ((c as u32) - 87) as nat
    } else {
        ((c as u32) - 55) as nat
    }
}

/// True for hexadecimal digit characters, either case.
pub open spec fn is_hex(c: char) -> bool {
    is_digit(c) || (97 <= (c as u32) && (c as u32) <= 102) || (65 <= (c as u32) && (c as u32)
        <= 70)
}

/// How a character appears inside a printed JSON string: itself, unless it
/// must be escaped.
pub open spec fn esc_char(c: char) -> Seq<char> {
    if c == '"' {
        seq!['\\', '"']
    } else if c == '\\' {
        seq!['\\', '\\']
    } else if (c as u32) < 0x20 {
        seq!['\\', 'u', '0', '0', hex_char(((c as u32) / 16) as nat), hex_char(((c as u32) % 16) as nat)]
    } else {
        seq![c]
    }
}

/// The printed body of a JSON string.
pub open spec fn esc_str(s: Seq<char>) -> Seq<char>
    decreases s.len(),
{
    if s.len() == 0 {
        Seq::empty()
    } else {
        esc_char(s[0]) + esc_str(s.drop_first())
    }
}

/// The printed form of a document: no whitespace, minimal escapes.
pub open spec fn print_json(v: JsonV) -> Seq<char>
    decreases v,
{
    match v {
        JsonV::Null => "null"@,
        JsonV::Bool(b) => if b {
            "true"@
        } else {
            "false"@
        },
        JsonV::Num(s) => s,
        JsonV::Str(s) => seq!['"'] + esc_str(s) + seq!['"'],
        JsonV::Arr(a) => seq!['['] + print_arr(a) + seq![']'],
        JsonV::Obj(o) => seq!['{'] + print_obj(o) + seq!['}'],
    }
}

/// The printed members of an array, comma separated.
pub open spec fn print_arr(a: Seq<JsonV>) -> Seq<char>
    decreases a,
{
    if a.len() == 0 {
        Seq::empty()
    } else if a.len() == 1 {
        print_json(a[0])
    } else {
        print_json(a[0]) + seq![','] + print_arr(a.drop_first())
    }
}

/// The printed members of an object, comma separated.
pub open spec fn print_obj(o: Seq<(Seq<char>, JsonV)>) -> Seq<char>
    decreases o,
{
    if o.len() == 0 {
        Seq::empty()
    } else if o.len() == 1 {
        print_member(o[0])
    } else {
        print_member(o[0]) + seq![','] + print_obj(o.drop_first())
    }
}

/// The printed form of one object member.
pub open spec fn print_member(m: (Seq<char>, JsonV)) -> Seq<char>
    decreases m,
{
    seq!['"'] + esc_str(m.0) + seq!['"', ':'] + print_json(m.1)
}

// ------------------------------------------------------------------
// Printing, executable
// ------------------------------------------------------------------

pub proof fn lemma_esc_str_push(s: Seq<char>, c: char)
    ensures
        esc_str(s.push(c)) == esc_str(s) + esc_char(c),
    decreases s.len(),
{
    if s.len() == 0 {
        assert(s.push(c).drop_first() =~= Seq::<char>::empty());
        assert(s.push(c)[0] == c);
        assert(esc_str(Seq::<char>::empty()) =~= Seq::<char>::empty());
        assert(esc_str(s.push(c)) =~= esc_char(c));
        assert(esc_str(s) + esc_char(c) =~= esc_char(c));
    } else {
        lemma_esc_str_push(s.drop_first(), c);
        assert(s.push(c).drop_first() =~= s.drop_first().push(c));
        assert(s.push(c)[0] == s[0]);
        assert(esc_char(s[0]) + (esc_str(s.drop_first()) + esc_char(c)) =~= (esc_char(s[0])
            + esc_str(s.drop_first())) + esc_char(c));
    }
}

pub proof fn lemma_print_arr_push(s: Seq<JsonV>, x: JsonV)
    ensures
        s.len() == 0 ==> print_arr(s.push(x)) == print_json(x),
        s.len() > 0 ==> print_arr(s.push(x)) == print_arr(s) + seq![','] + print_json(x),
    decreases s.len(),
{
    if s.len() == 0 {
        assert(s.push(x) =~= seq![x]);
        assert(print_arr(seq![x]) == print_json(x));
    } else {
        lemma_print_arr_push(s.drop_first(), x);
        assert(s.push(x).drop_first() =~= s.drop_first().push(x));
        assert(s.push(x)[0] == s[0]);
        if s.len() == 1 {
            assert(print_arr(s.push(x)) == print_json(s[0]) + seq![','] + print_arr(
                s.drop_first().push(x),
            ));
            assert(print_arr(s) == print_json(s[0]));
        } else {
            assert(print_arr(s.push(x)) == print_json(s[0]) + seq![','] + print_arr(
                s.drop_first().push(x),
            ));
            assert(print_json(s[0]) + seq![','] + (print_arr(s.drop_first()) + seq![',']
                + print_json(x)) =~= (print_json(s[0]) + seq![','] + print_arr(s.drop_first()))
                + seq![','] + print_json(x));
        }
    }
}

pub proof fn lemma_print_obj_push(s: Seq<(Seq<char>, JsonV)>, x: (Seq<char>, JsonV))
    ensures
        s.len() == 0 ==> print_obj(s.push(x)) == print_member(x),
        s.len() > 0 ==> print_obj(s.push(x)) == print_obj(s) + seq![','] + print_member(x),
    decreases s.len(),
{
    if s.len() == 0 {
        assert(s.push(x) =~= seq![x]);
        assert(print_obj(seq![x]) == print_member(x));
    } else {
        lemma_print_obj_push(s.drop_first(), x);
        assert(s.push(x).drop_first() =~= s.drop_first().push(x));
        assert(s.push(x)[0] == s[0]);
        if s.len() == 1 {
            assert(print_obj(s) == print_member(s[0]));
        } else {
            assert(print_member(s[0]) + seq![','] + (print_obj(s.drop_first()) + seq![',']
                + print_member(x)) =~= (print_member(s[0]) + seq![','] + print_obj(
                s.drop_first(),
            )) + seq![','] + print_member(x));
        }
    }
}

/// The executable counterpart of [`hex_char`].
pub fn hex_to_char(d: u64) -> (c: char)
    requires
        d < 16,
    ensures
        c == hex_char(d as nat),
{
    match d {
        0 => '0',
        1 => '1',
        2 => '2',
        3 => '3',
        4 => '4',
        5 => '5',
        6 => '6',
        7 => '7',
        8 => '8',
        9 => '9',
        10 => 'a',
        11 => 'b',
        12 => 'c',
        13 => 'd',
        14 => 'e',
        _ => 'f',
    }
}

/// Appends the printed body of a JSON string (escapes applied, no quotes).
fn write_escaped(s: &str, out: &mut Vec<char>)
    ensures
        final(out)@ == old(out)@ + esc_str(s@),
{
    let cs = str_to_chars(s);
    let ghost base = out@;
    let mut i: usize = 0;
    proof {
        assert(esc_str(cs@.subrange(0, 0)) =~= Seq::<char>::empty());
        assert(base + esc_str(cs@.subrange(0, 0)) =~= base);
    }
    while i < cs.len()
        invariant
            i <= cs@.len() == s@.len(),
            cs@ == s@,
            out@ == base + esc_str(cs@.subrange(0, i as int)),
        decreases cs@.len() - i,
    {
        let c = cs[i];
        let u = c as u32;
        if c == '"' {
            out.push('\\');
            out.push('"');
        } else if c == '\\' {
            out.push('\\');
            out.push('\\');
        } else if u < 0x20 {
            out.push('\\');
            out.push('u');
            out.push('0');
            out.push('0');
            out.push(hex_to_char((u / 16) as u64));
            out.push(hex_to_char((u % 16) as u64));
        } else {
            out.push(c);
        }
        proof {
            lemma_esc_str_push(cs@.subrange(0, i as int), c);
            assert(cs@.subrange(0, i + 1) =~= cs@.subrange(0, i as int).push(c));
            assert(out@ =~= base + esc_str(cs@.subrange(0, i + 1)));
        }
        i = i + 1;
    }
    proof {
        assert(cs@.subrange(0, cs@.len() as int) =~= s@);
    }
}

/// Appends the printed form of a document to `out`.
///
/// What comes out is exactly [`print_json`] of the document's shape.
#[verifier::loop_isolation(false)]
#[verifier::rlimit(100)]
pub fn write_json(v: &JsonValue, out: &mut Vec<char>)
    ensures
        final(out)@ == old(out)@ + print_json(v.deep_view()),
    decreases v,
{
    let ghost base = out@;
    match v {
        JsonValue::Null => {
            out.push('n');
            out.push('u');
            out.push('l');
            out.push('l');
            proof {
                reveal_strlit("null");
                assert(out@ =~= base + "null"@);
            }
        },
        JsonValue::Bool(b) => {
            if *b {
                out.push('t');
                out.push('r');
                out.push('u');
                out.push('e');
                proof {
                    reveal_strlit("true");
                    assert(out@ =~= base + "true"@);
                }
            } else {
                out.push('f');
                out.push('a');
                out.push('l');
                out.push('s');
                out.push('e');
                proof {
                    reveal_strlit("false");
                    assert(out@ =~= base + "false"@);
                }
            }
        },
        JsonValue::Num(s) => {
            let mut cs = str_to_chars(s.as_str());
            out.append(&mut cs);
        },
        JsonValue::Str(s) => {
            out.push('"');
            write_escaped(s.as_str(), out);
            out.push('"');
            proof {
                assert(out@ =~= base + (seq!['"'] + esc_str(s@) + seq!['"']));
            }
        },
        JsonValue::Arr(a) => {
            out.push('[');
            let ghost da = deep_arr(a@);
            proof {
                lemma_deep_arr(a@);
            }
            let mut i: usize = 0;
            while i < a.len()
                invariant
                    *v == JsonValue::Arr(*a),
                    i <= a@.len(),
                    da == deep_arr(a@),
                    da.len() == a@.len(),
                    forall|k: int| 0 <= k < a@.len() ==> #[trigger] da[k] == a@[k].deep_view(),
                    out@ == base + seq!['['] + print_arr(da.take(i as int)),
                decreases a@.len() - i,
            {
                if i > 0 {
                    out.push(',');
                }
                write_json(&a[i], out);
                proof {
                    lemma_print_arr_push(da.take(i as int), da[i as int]);
                    assert(da.take(i + 1) =~= da.take(i as int).push(da[i as int]));
                    if i == 0 {
                        assert(out@ =~= base + seq!['['] + print_arr(da.take(i + 1)));
                    } else {
                        assert(out@ =~= base + seq!['['] + print_arr(da.take(i + 1)));
                    }
                }
                i = i + 1;
            }
            out.push(']');
            proof {
                assert(da.take(a@.len() as int) =~= da);
                assert(out@ =~= base + (seq!['['] + print_arr(da) + seq![']']));
            }
        },
        JsonValue::Obj(o) => {
            out.push('{');
            let ghost dm = deep_obj(o@);
            proof {
                lemma_deep_obj(o@);
            }
            let mut i: usize = 0;
            while i < o.len()
                invariant
                    *v == JsonValue::Obj(*o),
                    i <= o@.len(),
                    dm == deep_obj(o@),
                    dm.len() == o@.len(),
                    forall|k: int| 0 <= k < o@.len() ==> (#[trigger] dm[k]).0 == o@[k].0@ && dm[k].1
                        == o@[k].1.deep_view(),
                    out@ == base + seq!['{'] + print_obj(dm.take(i as int)),
                decreases o@.len() - i,
            {
                if i > 0 {
                    out.push(',');
                }
                out.push('"');
                write_escaped(o[i].0.as_str(), out);
                out.push('"');
                out.push(':');
                write_json(&o[i].1, out);
                proof {
                    lemma_print_obj_push(dm.take(i as int), dm[i as int]);
                    assert(dm.take(i + 1) =~= dm.take(i as int).push(dm[i as int]));
                    assert(print_member(dm[i as int]) == seq!['"'] + esc_str(o@[i as int].0@)
                        + seq!['"', ':'] + print_json(o@[i as int].1.deep_view()));
                    assert(out@ =~= base + seq!['{'] + print_obj(dm.take(i + 1)));
                }
                i = i + 1;
            }
            out.push('}');
            proof {
                assert(dm.take(o@.len() as int) =~= dm);
                assert(out@ =~= base + (seq!['{'] + print_obj(dm) + seq!['}']));
            }
        },
    }
}

/// The printed text of a document, as a string.
pub fn json_to_string(v: &JsonValue) -> (r: String)
    ensures
        r@ == print_json(v.deep_view()),
{
    let mut out: Vec<char> = Vec::new();
    write_json(v, &mut out);
    chars_to_string(&out)
}

// ------------------------------------------------------------------
// Parsing, in specification land
// ------------------------------------------------------------------

/// How many consecutive whitespace characters stand at `i`.
pub open spec fn ws_len(s: Seq<char>, i: int) -> nat
    decreases s.len() - i when i <= s.len()
{
    if i < s.len() && is_ws(s[i]) {
        (1 + ws_len(s, i + 1)) as nat
    } else {
        0
    }
}

/// The first index at or after `i` that holds no whitespace (at most the
/// length of `s`).
pub open spec fn ws_end(s: Seq<char>, i: int) -> int {
    if i + ws_len(s, i) <= s.len() {
        i + ws_len(s, i)
    } else {
        s.len() as int
    }
}

pub proof fn lemma_ws_end(s: Seq<char>, i: int)
    requires
        0 <= i <= s.len(),
    ensures
        i <= ws_end(s, i) <= s.len(),
        forall|x: int| i <= x < ws_end(s, i) ==> is_ws(#[trigger] s[x]),
        ws_end(s, i) < s.len() ==> !is_ws(s[ws_end(s, i)]),
        (i < s.len() && !is_ws(s[i])) ==> ws_end(s, i) == i,
        i == s.len() ==> ws_end(s, i) == i,
    decreases s.len() - i,
{
    if i < s.len() && is_ws(s[i]) {
        lemma_ws_end(s, i + 1);
    }
}

/// How many consecutive number characters stand at `i`.
pub open spec fn num_len(s: Seq<char>, i: int) -> nat
    decreases s.len() - i when i <= s.len()
{
    if i < s.len() && is_num_char(s[i]) {
        (1 + num_len(s, i + 1)) as nat
    } else {
        0
    }
}

/// The end of the maximal run of number characters starting at `i`.
pub open spec fn num_end(s: Seq<char>, i: int) -> int {
    if i + num_len(s, i) <= s.len() {
        i + num_len(s, i)
    } else {
        s.len() as int
    }
}

pub proof fn lemma_num_end(s: Seq<char>, i: int)
    requires
        0 <= i <= s.len(),
    ensures
        i <= num_end(s, i) <= s.len(),
        forall|x: int| i <= x < num_end(s, i) ==> is_num_char(#[trigger] s[x]),
        num_end(s, i) < s.len() ==> !is_num_char(s[num_end(s, i)]),
    decreases s.len() - i,
{
    if i < s.len() && is_num_char(s[i]) {
        lemma_num_end(s, i + 1);
    }
}

/// The maximal number run is pinned down by its ends: if everything from
/// `i` to `e` is a number character and `e` sits at the end of the text or
/// before a non-number character, the run ends exactly at `e`.
pub proof fn lemma_num_end_exact(s: Seq<char>, i: int, e: int)
    requires
        0 <= i <= e <= s.len(),
        forall|x: int| i <= x < e ==> is_num_char(#[trigger] s[x]),
        e == s.len() || !is_num_char(s[e]),
    ensures
        num_end(s, i) == e,
    decreases e - i,
{
    if i < e {
        lemma_num_end_exact(s, i + 1, e);
    } else {
        if i < s.len() && is_num_char(s[i]) {
        }
    }
}

/// Parses one escape sequence, after the backslash: the character it
/// denotes and the index after it.
pub open spec fn parse_escape(s: Seq<char>, i: int) -> Option<(char, int)> {
    if !(0 <= i < s.len()) {
        None
    } else {
        let c = s[i];
        if c == '"' || c == '\\' || c == '/' {
            Some((c, i + 1))
        } else if c == 'b' {
            Some(('\u{8}', i + 1))
        } else if c == 'f' {
            Some(('\u{c}', i + 1))
        } else if c == 'n' {
            Some(('\n', i + 1))
        } else if c == 'r' {
            Some(('\r', i + 1))
        } else if c == 't' {
            Some(('\t', i + 1))
        } else if c == 'u' {
            if i + 5 <= s.len() && is_hex(s[i + 1]) && is_hex(s[i + 2]) && is_hex(s[i + 3])
                && is_hex(s[i + 4]) {
                let h = hex_val(s[i + 1]) * 0x1000 + hex_val(s[i + 2]) * 0x100 + hex_val(
                    s[i + 3],
                ) * 0x10 + hex_val(s[i + 4]);
                if 0xD800 <= h < 0xE000 {
                    None
                } else {
                    Some(((h as u32) as char, i + 5))
                }
            } else {
                None
            }
        } else {
            None
        }
    }
}

/// Parses the body of a string after the opening quote: the characters it
/// denotes and the index after the closing quote.
pub open spec fn parse_string_body(s: Seq<char>, i: int) -> Option<(Seq<char>, int)>
    decreases s.len() - i, 0int,
{
    if !(0 <= i < s.len()) {
        None
    } else {
        let c = s[i];
        if c == '"' {
            Some((Seq::empty(), i + 1))
        } else if c == '\\' {
            match parse_escape(s, i + 1) {
                None => None,
                Some((d, j)) => {
                    if i + 1 < j <= s.len() {
                        match parse_string_body(s, j) {
                            None => None,
                            Some((rest, k)) => Some((seq![d] + rest, k)),
                        }
                    } else {
                        None
                    }
                },
            }
        } else if (c as u32) < 0x20 {
            None
        } else {
            match parse_string_body(s, i + 1) {
                None => None,
                Some((rest, k)) => Some((seq![c] + rest, k)),
            }
        }
    }
}

/// Parses one JSON value at `i`, which must not be preceded by whitespace:
/// the document and the index just after it.
pub open spec fn parse_value(s: Seq<char>, i: int) -> Option<(JsonV, int)>
    decreases s.len() - i, 0int,
{
    if !(0 <= i < s.len()) {
        None
    } else {
        let c = s[i];
        if c == 'n' {
            if i + 4 <= s.len() && s[i + 1] == 'u' && s[i + 2] == 'l' && s[i + 3] == 'l' {
                Some((JsonV::Null, i + 4))
            } else {
                None
            }
        } else if c == 't' {
            if i + 4 <= s.len() && s[i + 1] == 'r' && s[i + 2] == 'u' && s[i + 3] == 'e' {
                Some((JsonV::Bool(true), i + 4))
            } else {
                None
            }
        } else if c == 'f' {
            if i + 5 <= s.len() && s[i + 1] == 'a' && s[i + 2] == 'l' && s[i + 3] == 's' && s[i
                + 4] == 'e' {
                Some((JsonV::Bool(false), i + 5))
            } else {
                None
            }
        } else if c == '"' {
            match parse_string_body(s, i + 1) {
                None => None,
                Some((cs, j)) => Some((JsonV::Str(cs), j)),
            }
        } else if c == '[' {
            let j = ws_end(s, i + 1);
            if j < s.len() && s[j] == ']' {
                Some((JsonV::Arr(Seq::empty()), j + 1))
            } else {
                match parse_arr_items(s, j) {
                    None => None,
                    Some((items, k)) => Some((JsonV::Arr(items), k)),
                }
            }
        } else if c == '{' {
            let j = ws_end(s, i + 1);
            if j < s.len() && s[j] == '}' {
                Some((JsonV::Obj(Seq::empty()), j + 1))
            } else {
                match parse_obj_items(s, j) {
                    None => None,
                    Some((members, k)) => Some((JsonV::Obj(members), k)),
                }
            }
        } else if c == '-' || is_digit(c) {
            let e = num_end(s, i);
            if num_wf(s.subrange(i, e)) {
                Some((JsonV::Num(s.subrange(i, e)), e))
            } else {
                None
            }
        } else {
            None
        }
    }
}

/// Parses the members of a non-empty array from the first value on: the
/// member documents and the index after the closing bracket.
pub open spec fn parse_arr_items(s: Seq<char>, i: int) -> Option<(Seq<JsonV>, int)>
    decreases s.len() - i, 1int,
{
    match parse_value(s, i) {
        None => None,
        Some((v, j)) => {
            if i < j <= s.len() {
                let k = ws_end(s, j);
                if k < s.len() && s[k] == ',' {
                    let n = ws_end(s, k + 1);
                    match parse_arr_items(s, n) {
                        None => None,
                        Some((rest, e)) => Some((seq![v] + rest, e)),
                    }
                } else if k < s.len() && s[k] == ']' {
                    Some((seq![v], k + 1))
                } else {
                    None
                }
            } else {
                None
            }
        },
    }
}

/// Parses the members of a non-empty object from the first key on: the
/// members and the index after the closing brace.
pub open spec fn parse_obj_items(s: Seq<char>, i: int) -> Option<(Seq<(Seq<char>, JsonV)>, int)>
    decreases s.len() - i, 1int,
{
    if !(0 <= i < s.len() && s[i] == '"') {
        None
    } else {
        match parse_string_body(s, i + 1) {
            None => None,
            Some((key, j)) => {
                if i < j <= s.len() {
                    let k = ws_end(s, j);
                    if k < s.len() && s[k] == ':' {
                        let m = ws_end(s, k + 1);
                        match parse_value(s, m) {
                            None => None,
                            Some((v, n)) => {
                                if m < n <= s.len() {
                                    let p = ws_end(s, n);
                                    if p < s.len() && s[p] == ',' {
                                        let q = ws_end(s, p + 1);
                                        match parse_obj_items(s, q) {
                                            None => None,
                                            Some((rest, e)) => Some((seq![(key, v)] + rest, e)),
                                        }
                                    } else if p < s.len() && s[p] == '}' {
                                        Some((seq![(key, v)], p + 1))
                                    } else {
                                        None
                                    }
                                } else {
                                    None
                                }
                            },
                        }
                    } else {
                        None
                    }
                } else {
                    None
                }
            },
        }
    }
}

/// Parses a whole document: leading and trailing whitespace allowed,
/// nothing else around the one value.
pub open spec fn parse_document(s: Seq<char>) -> Option<JsonV> {
    let i = ws_end(s, 0);
    match parse_value(s, i) {
        None => None,
        Some((v, j)) => {
            if 0 <= j <= s.len() && ws_end(s, j) == s.len() {
                Some(v)
            } else {
                None
            }
        },
    }
}

pub proof fn lemma_parse_string_body_bounds(s: Seq<char>, i: int)
    requires
        0 <= i,
    ensures
        match parse_string_body(s, i) {
            Some((cs, j)) => i < j <= s.len(),
            None => true,
        },
    decreases s.len() - i,
{
    if 0 <= i < s.len() {
        if s[i] == '\\' {
            match parse_escape(s, i + 1) {
                Some((d, j)) => {
                    if i + 1 < j <= s.len() {
                        lemma_parse_string_body_bounds(s, j);
                    }
                },
                None => {},
            }
        } else if s[i] != '"' && (s[i] as u32) >= 0x20 {
            lemma_parse_string_body_bounds(s, i + 1);
        }
    }
}

pub proof fn lemma_parse_value_bounds(s: Seq<char>, i: int)
    requires
        0 <= i,
    ensures
        match parse_value(s, i) {
            Some((v, j)) => i < j <= s.len(),
            None => true,
        },
    decreases s.len() - i, 1int,
{
    if 0 <= i < s.len() {
        let c = s[i];
        if c == '"' {
            lemma_parse_string_body_bounds(s, i + 1);
        } else if c == '[' {
            lemma_ws_end(s, i + 1);
            let j = ws_end(s, i + 1);
            if !(j < s.len() && s[j] == ']') {
                lemma_parse_arr_items_bounds(s, j);
            }
        } else if c == '{' {
            lemma_ws_end(s, i + 1);
            let j = ws_end(s, i + 1);
            if !(j < s.len() && s[j] == '}') {
                lemma_parse_obj_items_bounds(s, j);
            }
        } else if c == '-' || is_digit(c) {
            lemma_num_end(s, i);
            let e = num_end(s, i);
            if num_wf(s.subrange(i, e)) {
                lemma_num_wf_chars(s.subrange(i, e));
                assert(e > i) by {
                    if e == i {
                        assert(s.subrange(i, e).len() == 0);
                    }
                }
            }
        }
    }
}

pub proof fn lemma_parse_arr_items_bounds(s: Seq<char>, i: int)
    requires
        0 <= i,
    ensures
        match parse_arr_items(s, i) {
            Some((items, j)) => i < j <= s.len() && items.len() > 0,
            None => true,
        },
    decreases s.len() - i, 2int,
{
    lemma_parse_value_bounds(s, i);
    match parse_value(s, i) {
        Some((v, j)) => {
            if i < j <= s.len() {
                lemma_ws_end(s, j);
                let k = ws_end(s, j);
                if k < s.len() && s[k] == ',' {
                    lemma_ws_end(s, k + 1);
                    lemma_parse_arr_items_bounds(s, ws_end(s, k + 1));
                }
            }
        },
        None => {},
    }
}

pub proof fn lemma_parse_obj_items_bounds(s: Seq<char>, i: int)
    requires
        0 <= i,
    ensures
        match parse_obj_items(s, i) {
            Some((members, j)) => i < j <= s.len() && members.len() > 0,
            None => true,
        },
    decreases s.len() - i, 2int,
{
    if 0 <= i < s.len() && s[i] == '"' {
        lemma_parse_string_body_bounds(s, i + 1);
        match parse_string_body(s, i + 1) {
            Some((key, j)) => {
                if i < j <= s.len() {
                    lemma_ws_end(s, j);
                    let k = ws_end(s, j);
                    if k < s.len() && s[k] == ':' {
                        lemma_ws_end(s, k + 1);
                        let m = ws_end(s, k + 1);
                        lemma_parse_value_bounds(s, m);
                        match parse_value(s, m) {
                            Some((v, n)) => {
                                if m < n <= s.len() {
                                    lemma_ws_end(s, n);
                                    let p = ws_end(s, n);
                                    if p < s.len() && s[p] == ',' {
                                        lemma_ws_end(s, p + 1);
                                        lemma_parse_obj_items_bounds(s, ws_end(s, p + 1));
                                    }
                                }
                            },
                            None => {},
                        }
                    }
                }
            },
            None => {},
        }
    }
}

// ------------------------------------------------------------------
// Parsing a printed document yields the document back
// ------------------------------------------------------------------

/// Each hexadecimal digit character spells its own value.
pub proof fn lemma_hex_char_val(n: nat)
    requires
        n < 16,
    ensures
        is_hex(hex_char(n)),
        hex_val(hex_char(n)) == n,
{
    if n < 10 {
        crate::text::lemma_digit_char_val(n);
        assert(hex_char(n) == digit_char_as_hex(n));
    } else if n == 10 {
        assert(hex_char(10) == 'a');
    } else if n == 11 {
        assert(hex_char(11) == 'b');
    } else if n == 12 {
        assert(hex_char(12) == 'c');
    } else if n == 13 {
        assert(hex_char(13) == 'd');
    } else if n == 14 {
        assert(hex_char(14) == 'e');
    } else {
        assert(hex_char(15) == 'f');
    }
}

/// Below ten, the hexadecimal and decimal digit tables agree.
pub open spec fn digit_char_as_hex(n: nat) -> char {
    crate::text::digit_char(n)
}

/// A printed document is never empty, and its first character is not
/// whitespace, a separator, or a closer.
pub proof fn lemma_print_first(v: JsonV)
    requires
        json_wf(v),
    ensures
        print_json(v).len() > 0,
        !is_ws(print_json(v)[0]),
        !is_delim(print_json(v)[0]),
        print_json(v)[0] != ':',
{
    match v {
        JsonV::Null => {
            reveal_strlit("null");
        },
        JsonV::Bool(b) => {
            reveal_strlit("true");
            reveal_strlit("false");
        },
        JsonV::Num(s) => {
            lemma_num_wf_chars(s);
            let c = s[0];
            if is_digit(c) {
                assert((',' as u32) == 44 && (']' as u32) == 93 && ('}' as u32) == 125 && (
                ':' as u32) == 58 && (' ' as u32) == 32 && ('\t' as u32) == 9 && ('\n' as u32)
                    == 10 && ('\r' as u32) == 13);
            }
        },
        JsonV::Str(s) => {
            assert(print_json(v)[0] == '"');
        },
        JsonV::Arr(a) => {
            assert(print_json(v)[0] == '[');
        },
        JsonV::Obj(o) => {
            assert(print_json(v)[0] == '{');
        },
    }
}

/// A separator or closer is not part of a number run.
pub proof fn lemma_delim_not_num(c: char)
    requires
        is_delim(c) || is_ws(c),
    ensures
        !is_num_char(c),
{
    assert((',' as u32) == 44 && (']' as u32) == 93 && ('}' as u32) == 125 && (' ' as u32) == 32
        && ('\t' as u32) == 9 && ('\n' as u32) == 10 && ('\r' as u32) == 13 && ('-' as u32) == 45
        && ('+' as u32) == 43 && ('.' as u32) == 46 && ('e' as u32) == 101 && ('E' as u32) == 69);
}

/// Transfers one character of an embedded piece of text to the text
/// around it.
pub proof fn lemma_seq_at(s: Seq<char>, i: int, p: Seq<char>, x: int)
    requires
        0 <= i,
        0 <= x < p.len(),
        i + p.len() <= s.len(),
        s.subrange(i, i + p.len()) == p,
    ensures
        s[i + x] == p[x],
{
    assert(s.subrange(i, i + p.len())[x] == s[i + x]);
}

/// Parsing an escaped string body out of its printed context yields the
/// original characters and stops after the closing quote.
#[verifier::rlimit(100)]
pub proof fn lemma_parse_esc(t: Seq<char>, s: Seq<char>, i: int)
    requires
        0 <= i,
        i + esc_str(t).len() + 1 <= s.len(),
        s.subrange(i, i + esc_str(t).len()) == esc_str(t),
        s[i + esc_str(t).len()] == '"',
    ensures
        parse_string_body(s, i) == Some((t, i + esc_str(t).len() + 1)),
    decreases t.len(),
{
    let et = esc_str(t);
    if t.len() == 0 {
        assert(et =~= Seq::<char>::empty());
        assert(s[i] == '"');
    } else {
        let c = t[0];
        let t2 = t.drop_first();
        let e1 = esc_char(c);
        let e2 = esc_str(t2);
        assert(et == e1 + e2);
        let i2 = i + e1.len();
        assert forall|x: int| 0 <= x < e1.len() implies s[i + x] == e1[x] by {
            lemma_seq_at(s, i, et, x);
            assert(et[x] == (e1 + e2)[x]);
        }
        assert(s[i] == e1[0]) by {
            lemma_seq_at(s, i, et, 0);
            assert(et[0] == (e1 + e2)[0]);
        }
        if e1.len() >= 2 {
            lemma_seq_at(s, i, et, 1);
            assert(et[1] == (e1 + e2)[1]);
            assert(s[i + 1] == e1[1]);
        }
        if e1.len() == 6 {
            lemma_seq_at(s, i, et, 2);
            lemma_seq_at(s, i, et, 3);
            lemma_seq_at(s, i, et, 4);
            lemma_seq_at(s, i, et, 5);
            assert(et[2] == (e1 + e2)[2]);
            assert(et[3] == (e1 + e2)[3]);
            assert(et[4] == (e1 + e2)[4]);
            assert(et[5] == (e1 + e2)[5]);
        }
        assert(s.subrange(i2, i2 + e2.len()) =~= e2) by {
            assert forall|x: int| 0 <= x < e2.len() implies s.subrange(i2, i2 + e2.len())[x]
                == e2[x] by {
                assert(s.subrange(i2, i2 + e2.len())[x] == s[i2 + x]);
                assert(s.subrange(i, i + et.len())[e1.len() + x] == s[i2 + x]);
                assert(et[e1.len() + x] == (e1 + e2)[e1.len() + x]);
            }
        }
        assert(s[i2 + e2.len()] == '"');
        lemma_parse_esc(t2, s, i2);
        assert(seq![c] + t2 =~= t);
        if c == '"' {
            assert(e1 =~= seq!['\\', '"']);
            assert(s[i] == '\\' && s[i + 1] == '"');
            assert(parse_escape(s, i + 1) == Some(('"', i + 2)));
        } else if c == '\\' {
            assert(e1 =~= seq!['\\', '\\']);
            assert(s[i] == '\\' && s[i + 1] == '\\');
            assert(parse_escape(s, i + 1) == Some(('\\', i + 2)));
        } else if (c as u32) < 0x20 {
            let u = c as u32;
            let h1 = hex_char((u / 16) as nat);
            let h2 = hex_char((u % 16) as nat);
            assert(e1 =~= seq!['\\', 'u', '0', '0', h1, h2]);
            assert(s[i] == '\\' && s[i + 1] == 'u' && s[i + 2] == '0' && s[i + 3] == '0' && s[i
                + 4] == h1 && s[i + 5] == h2);
            lemma_hex_char_val((u / 16) as nat);
            lemma_hex_char_val((u % 16) as nat);
            assert(is_hex('0') && hex_val('0') == 0);
            let h = hex_val(s[i + 2]) * 0x1000 + hex_val(s[i + 3]) * 0x100 + hex_val(s[i + 4])
                * 0x10 + hex_val(s[i + 5]);
            assert(h == (u / 16) * 16 + u % 16);
            assert(h == u);
            assert((h as u32) == u);
            vstd::utf8::char_u32_cast(c, u);
            assert((h as u32) as char == c);
            assert(parse_escape(s, i + 1) == Some((c, i + 6)));
        } else {
            assert(e1 =~= seq![c]);
            assert(s[i] == c);
        }
    }
}
/// Parsing the printed text of a well-formed document, inside any text
/// where a closer, a comma, whitespace, or the end follows it, yields the
/// document and stops exactly after it.
#[verifier::rlimit(100)]
pub proof fn lemma_parse_print(v: JsonV, s: Seq<char>, i: int)
    requires
        json_wf(v),
        0 <= i,
        i + print_json(v).len() <= s.len(),
        s.subrange(i, i + print_json(v).len()) == print_json(v),
        i + print_json(v).len() == s.len() || is_delim(s[i + print_json(v).len()]) || is_ws(
            s[i + print_json(v).len()],
        ),
    ensures
        parse_value(s, i) == Some((v, i + print_json(v).len())),
    decreases v, 0int,
{
    let p = print_json(v);
    let l = p.len() as int;
    lemma_print_first(v);
    assert(s[i] == p[0]) by {
        lemma_seq_at(s, i, p, 0);
    }
    match v {
        JsonV::Null => {
            reveal_strlit("null");
            lemma_seq_at(s, i, p, 1);
            lemma_seq_at(s, i, p, 2);
            lemma_seq_at(s, i, p, 3);
            assert(s[i] == 'n' && s[i + 1] == 'u' && s[i + 2] == 'l' && s[i + 3] == 'l');
        },
        JsonV::Bool(b) => {
            reveal_strlit("true");
            reveal_strlit("false");
            if b {
                lemma_seq_at(s, i, p, 1);
                lemma_seq_at(s, i, p, 2);
                lemma_seq_at(s, i, p, 3);
                assert(s[i] == 't' && s[i + 1] == 'r' && s[i + 2] == 'u' && s[i + 3] == 'e');
                assert(('t' as u32) != ('n' as u32));
            } else {
                lemma_seq_at(s, i, p, 1);
                lemma_seq_at(s, i, p, 2);
                lemma_seq_at(s, i, p, 3);
                lemma_seq_at(s, i, p, 4);
                assert(s[i] == 'f' && s[i + 1] == 'a' && s[i + 2] == 'l' && s[i + 3] == 's' && s[i
                    + 4] == 'e');
                assert(('f' as u32) != ('n' as u32) && ('f' as u32) != ('t' as u32));
            }
        },
        JsonV::Num(lex) => {
            lemma_num_wf_chars(lex);
            assert(p == lex);
            assert forall|x: int| i <= x < i + l implies is_num_char(#[trigger] s[x]) by {
                lemma_seq_at(s, i, lex, x - i);
                assert(s[i + (x - i)] == lex[x - i]);
                assert(i + (x - i) == x);
            }
            if i + l < s.len() {
                lemma_delim_not_num(s[i + l]);
            }
            lemma_num_end_exact(s, i, i + l);
            assert(('n' as u32) == 110 && ('t' as u32) == 116 && ('f' as u32) == 102 && (
            '"' as u32) == 34 && ('[' as u32) == 91 && ('{' as u32) == 123 && ('-' as u32) == 45);
            let c = s[i];
            assert(c == lex[0]);
            assert(c == '-' || is_digit(c));
            assert(num_end(s, i) == i + l);
            assert(s.subrange(i, i + l) == lex);
        },
        JsonV::Str(t) => {
            let et = esc_str(t);
            let el = et.len() as int;
            assert(p == seq!['"'] + et + seq!['"']);
            assert(p[0] == '"') by {
                assert(((seq!['"'] + et) + seq!['"'])[0] == (seq!['"'] + et)[0]);
            }
            assert(s.subrange(i + 1, i + 1 + el) =~= et) by {
                assert forall|x: int| 0 <= x < el implies s.subrange(i + 1, i + 1 + el)[x]
                    == et[x] by {
                    assert(s.subrange(i + 1, i + 1 + el)[x] == s[i + 1 + x]);
                    lemma_seq_at(s, i, p, 1 + x);
                    assert(((seq!['"'] + et) + seq!['"'])[1 + x] == (seq!['"'] + et)[1 + x]);
                    assert((seq!['"'] + et)[1 + x] == et[x]);
                }
            }
            assert(s[i + 1 + el] == '"') by {
                lemma_seq_at(s, i, p, l - 1);
                assert(p =~= (seq!['"'] + et).push('"'));
                assert(p[l - 1] == '"');
                assert(l - 1 == 1 + el);
            }
            lemma_parse_esc(t, s, i + 1);
            assert(('"' as u32) == 34);
            assert(parse_value(s, i) == Some((JsonV::Str(t), i + 1 + el + 1)));
            assert(i + 1 + el + 1 == i + l);
        },
        JsonV::Arr(items) => {
            let pa = print_arr(items);
            let pl = pa.len() as int;
            assert(p == seq!['['] + pa + seq![']']);
            assert(p[0] == '[') by {
                assert(((seq!['['] + pa) + seq![']'])[0] == (seq!['['] + pa)[0]);
            }
            assert(s[i] == '[');
            assert(p[l - 1] == ']') by {
                assert(p =~= (seq!['['] + pa).push(']'));
            }
            assert(s[i + 1 + pl] == ']') by {
                lemma_seq_at(s, i, p, l - 1);
                assert(l - 1 == 1 + pl);
            }
            lemma_ws_end(s, i + 1);
            if items.len() == 0 {
                assert(pl == 0);
                assert(s[i + 1] == ']');
                assert(!is_ws(']'));
                assert(ws_end(s, i + 1) == i + 1);
                assert(items =~= Seq::<JsonV>::empty());
                assert(parse_value(s, i) == Some((JsonV::Arr(items), i + 2)));
            } else {
                assert(json_wf(items[0]));
                lemma_print_first(items[0]);
                assert(pa.len() > 0) by {
                    if items.len() == 1 {
                        assert(pa == print_json(items[0]));
                    } else {
                        assert(pa == print_json(items[0]) + seq![','] + print_arr(
                            items.drop_first(),
                        ));
                    }
                }
                assert(pa[0] == print_json(items[0])[0]) by {
                    if items.len() == 1 {
                        assert(pa == print_json(items[0]));
                    } else {
                        assert(pa == print_json(items[0]) + seq![','] + print_arr(
                            items.drop_first(),
                        ));
                        assert(((print_json(items[0]) + seq![',']) + print_arr(
                            items.drop_first(),
                        ))[0] == (print_json(items[0]) + seq![','])[0]);
                        assert((print_json(items[0]) + seq![','])[0] == print_json(items[0])[0]);
                    }
                }
                assert(s[i + 1] == pa[0]) by {
                    lemma_seq_at(s, i, p, 1);
                    assert(((seq!['['] + pa) + seq![']'])[1] == (seq!['['] + pa)[1]);
                    assert((seq!['['] + pa)[1] == pa[0]);
                }
                assert(!is_ws(s[i + 1]) && !is_delim(s[i + 1]));
                assert(ws_end(s, i + 1) == i + 1);
                assert(s.subrange(i + 1, i + 1 + pl) =~= pa) by {
                    assert forall|x: int| 0 <= x < pl implies s.subrange(i + 1, i + 1 + pl)[x]
                        == pa[x] by {
                        assert(s.subrange(i + 1, i + 1 + pl)[x] == s[i + 1 + x]);
                        lemma_seq_at(s, i, p, 1 + x);
                        assert(((seq!['['] + pa) + seq![']'])[1 + x] == (seq!['['] + pa)[1 + x]);
                        assert((seq!['['] + pa)[1 + x] == pa[x]);
                    }
                }
                lemma_parse_print_arr(items, s, i + 1);
                assert((']' as u32) == 93);
                assert(s[i + 1] != ']');
                assert(parse_value(s, i) == Some((JsonV::Arr(items), i + 1 + pl + 1)));
                assert(i + 1 + pl + 1 == i + l);
            }
        },
        JsonV::Obj(members) => {
            let po = print_obj(members);
            let pl = po.len() as int;
            assert(p == seq!['{'] + po + seq!['}']);
            assert(p[0] == '{') by {
                assert(((seq!['{'] + po) + seq!['}'])[0] == (seq!['{'] + po)[0]);
            }
            assert(s[i] == '{');
            assert(p[l - 1] == '}') by {
                assert(p =~= (seq!['{'] + po).push('}'));
            }
            assert(s[i + 1 + pl] == '}') by {
                lemma_seq_at(s, i, p, l - 1);
                assert(l - 1 == 1 + pl);
            }
            lemma_ws_end(s, i + 1);
            if members.len() == 0 {
                assert(pl == 0);
                assert(s[i + 1] == '}');
                assert(!is_ws('}'));
                assert(ws_end(s, i + 1) == i + 1);
                assert(members =~= Seq::<(Seq<char>, JsonV)>::empty());
                assert(parse_value(s, i) == Some((JsonV::Obj(members), i + 2)));
            } else {
                assert(po.len() > 0) by {
                    assert(print_member(members[0]).len() > 0);
                    if members.len() == 1 {
                        assert(po == print_member(members[0]));
                    } else {
                        assert(po == print_member(members[0]) + seq![','] + print_obj(
                            members.drop_first(),
                        ));
                    }
                }
                assert(po[0] == '"') by {
                    assert(print_member(members[0])[0] == '"') by {
                        assert(print_member(members[0]) == seq!['"'] + esc_str(members[0].0)
                            + seq!['"', ':'] + print_json(members[0].1));
                        assert((((seq!['"'] + esc_str(members[0].0)) + seq!['"', ':'])
                            + print_json(members[0].1))[0] == ((seq!['"'] + esc_str(members[0].0))
                            + seq!['"', ':'])[0]);
                        assert(((seq!['"'] + esc_str(members[0].0)) + seq!['"', ':'])[0] == (
                        seq!['"'] + esc_str(members[0].0))[0]);
                    }
                    if members.len() == 1 {
                        assert(po == print_member(members[0]));
                    } else {
                        assert(po == print_member(members[0]) + seq![','] + print_obj(
                            members.drop_first(),
                        ));
                        assert(((print_member(members[0]) + seq![',']) + print_obj(
                            members.drop_first(),
                        ))[0] == (print_member(members[0]) + seq![','])[0]);
                    }
                }
                assert(s[i + 1] == po[0]) by {
                    lemma_seq_at(s, i, p, 1);
                    assert(((seq!['{'] + po) + seq!['}'])[1] == (seq!['{'] + po)[1]);
                    assert((seq!['{'] + po)[1] == po[0]);
                }
                assert(!is_ws('"'));
                assert(ws_end(s, i + 1) == i + 1);
                assert(s.subrange(i + 1, i + 1 + pl) =~= po) by {
                    assert forall|x: int| 0 <= x < pl implies s.subrange(i + 1, i + 1 + pl)[x]
                        == po[x] by {
                        assert(s.subrange(i + 1, i + 1 + pl)[x] == s[i + 1 + x]);
                        lemma_seq_at(s, i, p, 1 + x);
                        assert(((seq!['{'] + po) + seq!['}'])[1 + x] == (seq!['{'] + po)[1 + x]);
                        assert((seq!['{'] + po)[1 + x] == po[x]);
                    }
                }
                lemma_parse_print_obj(members, s, i + 1);
                assert(('}' as u32) == 125 && ('"' as u32) == 34);
                assert(s[i + 1] != '}');
                assert(parse_value(s, i) == Some((JsonV::Obj(members), i + 1 + pl + 1)));
                assert(i + 1 + pl + 1 == i + l);
            }
        },
    }
}

/// Parsing the printed members of a non-empty array, with the closing
/// bracket after them, yields the members.
#[verifier::rlimit(100)]
pub proof fn lemma_parse_print_arr(items: Seq<JsonV>, s: Seq<char>, i: int)
    requires
        items.len() > 0,
        forall|x: int| 0 <= x < items.len() ==> json_wf(#[trigger] items[x]),
        0 <= i,
        i + print_arr(items).len() + 1 <= s.len(),
        s.subrange(i, i + print_arr(items).len()) == print_arr(items),
        s[i + print_arr(items).len()] == ']',
    ensures
        parse_arr_items(s, i) == Some((items, i + print_arr(items).len() + 1)),
    decreases items, 1int,
{
    let pa = print_arr(items);
    let pl = pa.len() as int;
    let v0 = items[0];
    let p0 = print_json(v0);
    let l0 = p0.len() as int;
    assert(json_wf(v0));
    lemma_print_first(v0);
    if items.len() == 1 {
        assert(pa == p0);
        assert(is_delim(s[i + l0]));
        lemma_parse_print(v0, s, i);
        lemma_ws_end(s, i + l0);
        assert(!is_ws(']'));
        assert(ws_end(s, i + l0) == i + l0);
        assert(s[i + l0] == ']');
        assert((']' as u32) != (',' as u32));
        assert(seq![v0] =~= items);
        assert(parse_arr_items(s, i) == Some((seq![v0], i + l0 + 1)));
    } else {
        let rest = items.drop_first();
        let pr = print_arr(rest);
        let prl = pr.len() as int;
        assert(pa == p0 + seq![','] + pr);
        assert(pl == l0 + 1 + prl);
        assert(s.subrange(i, i + l0) =~= p0) by {
            assert forall|x: int| 0 <= x < l0 implies s.subrange(i, i + l0)[x] == p0[x] by {
                assert(s.subrange(i, i + l0)[x] == s[i + x]);
                lemma_seq_at(s, i, pa, x);
                assert(((p0 + seq![',']) + pr)[x] == (p0 + seq![','])[x]);
                assert((p0 + seq![','])[x] == p0[x]);
            }
        }
        assert(s[i + l0] == ',') by {
            lemma_seq_at(s, i, pa, l0);
            assert(((p0 + seq![',']) + pr)[l0] == (p0 + seq![','])[l0]);
            assert((p0 + seq![','])[l0] == ',');
        }
        assert(is_delim(','));
        lemma_parse_print(v0, s, i);
        lemma_ws_end(s, i + l0);
        assert(!is_ws(','));
        assert(ws_end(s, i + l0) == i + l0);
        assert(rest.len() > 0);
        assert forall|x: int| 0 <= x < rest.len() implies json_wf(#[trigger] rest[x]) by {
            assert(rest[x] == items[x + 1]);
        }
        lemma_print_first(rest[0]);
        assert(pr.len() > 0) by {
            if rest.len() == 1 {
                assert(pr == print_json(rest[0]));
            } else {
                assert(pr == print_json(rest[0]) + seq![','] + print_arr(rest.drop_first()));
            }
        }
        assert(pr[0] == print_json(rest[0])[0]) by {
            if rest.len() == 1 {
                assert(pr == print_json(rest[0]));
            } else {
                assert(pr == print_json(rest[0]) + seq![','] + print_arr(rest.drop_first()));
                assert(((print_json(rest[0]) + seq![',']) + print_arr(rest.drop_first()))[0] == (
                print_json(rest[0]) + seq![','])[0]);
                assert((print_json(rest[0]) + seq![','])[0] == print_json(rest[0])[0]);
            }
        }
        assert(s[i + l0 + 1] == pr[0]) by {
            lemma_seq_at(s, i, pa, l0 + 1);
            assert(((p0 + seq![',']) + pr)[l0 + 1] == pr[0]);
        }
        lemma_ws_end(s, i + l0 + 1);
        assert(!is_ws(s[i + l0 + 1]));
        assert(ws_end(s, i + l0 + 1) == i + l0 + 1);
        assert(s.subrange(i + l0 + 1, i + l0 + 1 + prl) =~= pr) by {
            assert forall|x: int| 0 <= x < prl implies s.subrange(
                i + l0 + 1,
                i + l0 + 1 + prl,
            )[x] == pr[x] by {
                assert(s.subrange(i + l0 + 1, i + l0 + 1 + prl)[x] == s[i + l0 + 1 + x]);
                lemma_seq_at(s, i, pa, l0 + 1 + x);
                assert(((p0 + seq![',']) + pr)[l0 + 1 + x] == pr[x]);
            }
        }
        assert(s[i + l0 + 1 + prl] == ']') by {
            assert(i + l0 + 1 + prl == i + pl);
        }
        lemma_parse_print_arr(rest, s, i + l0 + 1);
        assert(seq![v0] + rest =~= items);
        assert(parse_arr_items(s, i) == Some((seq![v0] + rest, i + l0 + 1 + prl + 1)));
        assert(i + l0 + 1 + prl + 1 == i + pl + 1);
    }
}

/// Parsing the printed members of a non-empty object, with the closing
/// brace after them, yields the members.
#[verifier::rlimit(100)]
pub proof fn lemma_parse_print_obj(members: Seq<(Seq<char>, JsonV)>, s: Seq<char>, i: int)
    requires
        members.len() > 0,
        forall|x: int| 0 <= x < members.len() ==> json_wf((#[trigger] members[x]).1),
        0 <= i,
        i + print_obj(members).len() + 1 <= s.len(),
        s.subrange(i, i + print_obj(members).len()) == print_obj(members),
        s[i + print_obj(members).len()] == '}',
    ensures
        parse_obj_items(s, i) == Some((members, i + print_obj(members).len() + 1)),
    decreases members, 1int,
{
    let po = print_obj(members);
    let pl = po.len() as int;
    let m0 = members[0];
    let pm = print_member(m0);
    let ml = pm.len() as int;
    let et = esc_str(m0.0);
    let el = et.len() as int;
    let pv = print_json(m0.1);
    let vl = pv.len() as int;
    assert(pm == seq!['"'] + et + seq!['"', ':'] + pv);
    assert(ml == 3 + el + vl);
    assert(json_wf(m0.1));
    lemma_print_first(m0.1);
    // transfer the first member out of the member list
    assert(s.subrange(i, i + ml) =~= pm) by {
        assert forall|x: int| 0 <= x < ml implies s.subrange(i, i + ml)[x] == pm[x] by {
            assert(s.subrange(i, i + ml)[x] == s[i + x]);
            lemma_seq_at(s, i, po, x);
            if members.len() == 1 {
                assert(po == pm);
            } else {
                assert(po == pm + seq![','] + print_obj(members.drop_first()));
                assert(((pm + seq![',']) + print_obj(members.drop_first()))[x] == (pm
                    + seq![','])[x]);
                assert((pm + seq![','])[x] == pm[x]);
            }
        }
    }
    let ghost sep: char = if members.len() == 1 {
        '}'
    } else {
        ','
    };
    assert(s[i + ml] == sep) by {
        if members.len() == 1 {
            assert(po == pm);
            assert(i + ml == i + pl);
        } else {
            assert(po == pm + seq![','] + print_obj(members.drop_first()));
            lemma_seq_at(s, i, po, ml);
            assert(((pm + seq![',']) + print_obj(members.drop_first()))[ml] == (pm
                + seq![','])[ml]);
            assert((pm + seq![','])[ml] == ',');
        }
    }
    // the key string of the first member
    assert(s[i] == '"') by {
        lemma_seq_at(s, i, pm, 0);
        assert((((seq!['"'] + et) + seq!['"', ':']) + pv)[0] == ((seq!['"'] + et) + seq!['"',
            ':'])[0]);
        assert(((seq!['"'] + et) + seq!['"', ':'])[0] == (seq!['"'] + et)[0]);
    }
    assert(s.subrange(i + 1, i + 1 + el) =~= et) by {
        assert forall|x: int| 0 <= x < el implies s.subrange(i + 1, i + 1 + el)[x] == et[x] by {
            assert(s.subrange(i + 1, i + 1 + el)[x] == s[i + 1 + x]);
            lemma_seq_at(s, i, pm, 1 + x);
            assert((((seq!['"'] + et) + seq!['"', ':']) + pv)[1 + x] == ((seq!['"'] + et)
                + seq!['"', ':'])[1 + x]);
            assert(((seq!['"'] + et) + seq!['"', ':'])[1 + x] == (seq!['"'] + et)[1 + x]);
            assert((seq!['"'] + et)[1 + x] == et[x]);
        }
    }
    assert(s[i + 1 + el] == '"') by {
        lemma_seq_at(s, i, pm, 1 + el);
        assert((((seq!['"'] + et) + seq!['"', ':']) + pv)[1 + el] == ((seq!['"'] + et) + seq!['"',
            ':'])[1 + el]);
        assert(((seq!['"'] + et) + seq!['"', ':'])[1 + el] == seq!['"', ':'][0]);
    }
    lemma_parse_esc(m0.0, s, i + 1);
    let jq = i + 2 + el;
    assert(parse_string_body(s, i + 1) == Some((m0.0, jq)));
    // the colon
    assert(s[jq] == ':') by {
        lemma_seq_at(s, i, pm, 2 + el);
        assert((((seq!['"'] + et) + seq!['"', ':']) + pv)[2 + el] == ((seq!['"'] + et) + seq!['"',
            ':'])[2 + el]);
        assert(((seq!['"'] + et) + seq!['"', ':'])[2 + el] == seq!['"', ':'][1]);
    }
    lemma_ws_end(s, jq);
    assert(!is_ws(':'));
    assert(ws_end(s, jq) == jq);
    // the value of the first member
    let mv = jq + 1;
    assert(s.subrange(mv, mv + vl) =~= pv) by {
        assert forall|x: int| 0 <= x < vl implies s.subrange(mv, mv + vl)[x] == pv[x] by {
            assert(s.subrange(mv, mv + vl)[x] == s[mv + x]);
            lemma_seq_at(s, i, pm, 3 + el + x);
            assert(i + (3 + el + x) == mv + x);
            assert((((seq!['"'] + et) + seq!['"', ':']) + pv)[3 + el + x] == pv[x]);
        }
    }
    assert(mv + vl == i + ml);
    assert(is_delim(s[mv + vl])) by {
        assert(s[mv + vl] == sep);
    }
    lemma_parse_print(m0.1, s, mv);
    assert(s[mv] == pv[0]) by {
        lemma_seq_at(s, mv, pv, 0);
    }
    assert(!is_ws(s[mv]));
    lemma_ws_end(s, mv);
    assert(ws_end(s, mv) == mv);
    let n = mv + vl;
    lemma_ws_end(s, n);
    assert(!is_ws(s[n]));
    assert(ws_end(s, n) == n);
    assert((m0.0, m0.1) == m0);
    if members.len() == 1 {
        assert(s[n] == '}');
        assert(('}' as u32) != (',' as u32));
        assert(seq![(m0.0, m0.1)] =~= members);
        assert(parse_obj_items(s, i) == Some((members, n + 1)));
        assert(n + 1 == i + pl + 1);
    } else {
        assert(s[n] == ',');
        let rest = members.drop_first();
        let pr = print_obj(rest);
        let prl = pr.len() as int;
        assert(po == pm + seq![','] + pr);
        assert(pl == ml + 1 + prl);
        let q = n + 1;
        assert(rest.len() > 0);
        assert forall|x: int| 0 <= x < rest.len() implies json_wf((#[trigger] rest[x]).1) by {
            assert(rest[x] == members[x + 1]);
        }
        assert(pr.len() > 0) by {
            assert(print_member(rest[0]).len() > 0);
            if rest.len() == 1 {
                assert(pr == print_member(rest[0]));
            } else {
                assert(pr == print_member(rest[0]) + seq![','] + print_obj(rest.drop_first()));
            }
        }
        assert(pr[0] == '"') by {
            assert(print_member(rest[0])[0] == '"') by {
                assert(print_member(rest[0]) == seq!['"'] + esc_str(rest[0].0) + seq!['"', ':']
                    + print_json(rest[0].1));
                assert((((seq!['"'] + esc_str(rest[0].0)) + seq!['"', ':']) + print_json(
                    rest[0].1,
                ))[0] == ((seq!['"'] + esc_str(rest[0].0)) + seq!['"', ':'])[0]);
                assert(((seq!['"'] + esc_str(rest[0].0)) + seq!['"', ':'])[0] == (seq!['"']
                    + esc_str(rest[0].0))[0]);
            }
            if rest.len() == 1 {
                assert(pr == print_member(rest[0]));
            } else {
                assert(pr == print_member(rest[0]) + seq![','] + print_obj(rest.drop_first()));
                assert(((print_member(rest[0]) + seq![',']) + print_obj(rest.drop_first()))[0] == (
                print_member(rest[0]) + seq![','])[0]);
            }
        }
        assert(s[q] == pr[0]) by {
            lemma_seq_at(s, i, po, ml + 1);
            assert(i + (ml + 1) == q);
            assert(((pm + seq![',']) + pr)[ml + 1] == pr[0]);
        }
        assert(!is_ws('"'));
        lemma_ws_end(s, q);
        assert(ws_end(s, q) == q);
        assert(s.subrange(q, q + prl) =~= pr) by {
            assert forall|x: int| 0 <= x < prl implies s.subrange(q, q + prl)[x] == pr[x] by {
                assert(s.subrange(q, q + prl)[x] == s[q + x]);
                lemma_seq_at(s, i, po, ml + 1 + x);
                assert(i + (ml + 1 + x) == q + x);
                assert(((pm + seq![',']) + pr)[ml + 1 + x] == pr[x]);
            }
        }
        assert(s[q + prl] == '}') by {
            assert(q + prl == i + pl);
        }
        lemma_parse_print_obj(rest, s, q);
        assert(seq![(m0.0, m0.1)] + rest =~= members);
        assert(parse_obj_items(s, i) == Some((members, q + prl + 1)));
        assert(q + prl + 1 == i + pl + 1);
    }
}

/// Printing a well-formed document and parsing the text back yields the
/// document: the codec loses nothing.
pub proof fn lemma_document_round_trip(v: JsonV)
    requires
        json_wf(v),
    ensures
        parse_document(print_json(v)) == Some(v),
{
    let s = print_json(v);
    lemma_print_first(v);
    lemma_ws_end(s, 0);
    assert(ws_end(s, 0) == 0);
    assert(s.subrange(0, s.len() as int) =~= s);
    lemma_parse_print(v, s, 0);
    lemma_ws_end(s, s.len() as int);
}


// ------------------------------------------------------------------
// Parsing, executable
// ------------------------------------------------------------------


/// The executable counterpart of [`is_ws`].
fn is_ws_char(c: char) -> (r: bool)
    ensures
        r == is_ws(c),
{
    c == ' ' || c == '\t' || c == '\n' || c == '\r'
}

/// The executable counterpart of [`is_digit`].
fn is_digit_char(c: char) -> (r: bool)
    ensures
        r == is_digit(c),
{
    let u = c as u32;
    48 <= u && u <= 57
}

/// The executable counterpart of [`is_num_char`].
fn is_num_char_exec(c: char) -> (r: bool)
    ensures
        r == is_num_char(c),
{
    is_digit_char(c) || c == '-' || c == '+' || c == '.' || c == 'e' || c == 'E'
}

/// The first index at or after `i` with no whitespace.
#[verifier::loop_isolation(false)]
fn p_ws(s: &Vec<char>, i: usize) -> (r: usize)
    requires
        i <= s@.len(),
    ensures
        r == ws_end(s@, i as int),
        i <= r <= s@.len(),
{
    proof {
        lemma_ws_end(s@, i as int);
    }
    let ghost end = ws_end(s@, i as int);
    let mut cur: usize = i;
    while cur < s.len() && is_ws_char(s[cur])
        invariant
            i <= cur <= end <= s@.len(),
        decreases s@.len() - cur,
    {
        proof {
            if cur == end {
                assert(end < s@.len());
                assert(!is_ws(s@[end as int]));
            }
        }
        cur = cur + 1;
    }
    proof {
        if cur < end {
            assert(is_ws(s@[cur as int]));
        }
    }
    cur
}

/// The first index at or after `i` that holds no decimal digit.
#[verifier::loop_isolation(false)]
pub(crate) fn p_digits_end(s: &Vec<char>, i: usize) -> (r: usize)
    requires
        i <= s@.len(),
    ensures
        r == digits_end(s@, i as int),
        i <= r <= s@.len(),
{
    proof {
        lemma_digits_end(s@, i as int);
    }
    let ghost end = digits_end(s@, i as int);
    let mut cur: usize = i;
    while cur < s.len() && is_digit_char(s[cur])
        invariant
            i <= cur <= end <= s@.len(),
        decreases s@.len() - cur,
    {
        proof {
            if cur == end {
                assert(!is_digit(s@[end as int]));
            }
        }
        cur = cur + 1;
    }
    proof {
        if cur < end {
            assert(is_digit(s@[cur as int]));
        }
    }
    cur
}

/// The end of the maximal run of number characters at `i`.
#[verifier::loop_isolation(false)]
fn p_num_end(s: &Vec<char>, i: usize) -> (r: usize)
    requires
        i <= s@.len(),
    ensures
        r == num_end(s@, i as int),
        i <= r <= s@.len(),
{
    proof {
        lemma_num_end(s@, i as int);
    }
    let ghost end = num_end(s@, i as int);
    let mut cur: usize = i;
    while cur < s.len() && is_num_char_exec(s[cur])
        invariant
            i <= cur <= end <= s@.len(),
        decreases s@.len() - cur,
    {
        proof {
            if cur == end {
                assert(!is_num_char(s@[end as int]));
            }
        }
        cur = cur + 1;
    }
    proof {
        if cur < end {
            assert(is_num_char(s@[cur as int]));
        }
    }
    cur
}

/// Inside a piece of text that ends before a non-digit, digit runs are the
/// same whether measured in the piece or in the whole text.
proof fn lemma_digits_end_sub(s: Seq<char>, from: int, to: int, x: int)
    requires
        0 <= from,
        from <= from + x <= to <= s.len(),
        to == s.len() || !is_digit(s[to]),
    ensures
        digits_end(s.subrange(from, to), x) == digits_end(s, from + x) - from,
    decreases to - from - x,
{
    let sub = s.subrange(from, to);
    if x < sub.len() && is_digit(sub[x]) {
        assert(sub[x] == s[from + x]);
        lemma_digits_end_sub(s, from, to, x + 1);
    } else {
        if from + x < to {
            assert(sub[x] == s[from + x]);
        }
    }
}

/// Decides [`num_wf`] for the piece of text between `from` and `to`, when
/// that piece sits at the end of a maximal number-character run.
#[verifier::rlimit(100)]
fn check_num(s: &Vec<char>, from: usize, to: usize) -> (r: bool)
    requires
        from < to <= s@.len(),
        to == s@.len() || !is_num_char(s@[to as int]),
    ensures
        r == num_wf(s@.subrange(from as int, to as int)),
{
    let ghost sub = s@.subrange(from as int, to as int);
    proof {
        assert(sub.len() == to - from);
        assert forall|y: int| 0 <= y < sub.len() implies sub[y] == s@[from + y] by {
            assert(s@.subrange(from as int, to as int)[y] == s@[from + y]);
        }
        assert(to == s@.len() || !is_digit(s@[to as int]));
    }
    // optional minus sign
    let has_minus = s[from] == '-';
    let oi: usize = if has_minus {
        from + 1
    } else {
        from
    };
    proof {
        assert(sub[0] == s@[from as int]);
        assert((oi - from) == if sub.len() > 0 && sub[0] == '-' {
            1int
        } else {
            0int
        });
    }
    if oi >= to {
        proof {
            assert(!(oi - from < sub.len()));
        }
        return false;
    }
    let c0 = s[oi];
    let u0 = c0 as u32;
    if !(48 <= u0 && u0 <= 57) {
        proof {
            assert(sub[oi - from] == s@[oi as int]);
        }
        return false;
    }
    proof {
        assert(sub[oi - from] == s@[oi as int]);
        assert(is_digit(sub[oi - from]));
    }
    // integer part
    let oj: usize = if c0 == '0' {
        oi + 1
    } else {
        let e = p_digits_end(s, oi);
        proof {
            lemma_digits_end_sub(s@, from as int, to as int, oi - from);
            lemma_digits_end(s@, oi as int);
        }
        if e > to {
            proof {
                lemma_digits_end(s@, oi as int);
                assert(forall|y: int| oi <= y < digits_end(s@, oi as int) ==> is_digit(
                    #[trigger] s@[y],
                ));
                assert(is_digit(s@[to as int]));
            }
            to
        } else {
            e
        }
    };
    proof {
        if c0 != '0' {
            lemma_digits_end_sub(s@, from as int, to as int, oi - from);
        }
        assert((oj - from) == if oi - from < sub.len() && sub[oi - from] == '0' {
            oi - from + 1
        } else {
            digits_end(sub, oi - from)
        });
    }
    // fraction
    let ok: usize = if oj < to && s[oj] == '.' {
        proof {
            assert(sub[oj - from] == s@[oj as int]);
        }
        let e = p_digits_end(s, oj + 1);
        proof {
            lemma_digits_end_sub(s@, from as int, to as int, oj + 1 - from);
            lemma_digits_end(s@, oj + 1);
        }
        if e > to {
            proof {
                assert(is_digit(s@[to as int]));
            }
            to
        } else {
            e
        }
    } else {
        proof {
            if oj < to {
                assert(sub[oj - from] == s@[oj as int]);
            }
        }
        oj
    };
    proof {
        assert((ok - from) == if oj - from < sub.len() && sub[oj - from] == '.' {
            digits_end(sub, oj - from + 1)
        } else {
            oj - from
        });
    }
    if oj < to && s[oj] == '.' && ok <= oj + 1 {
        proof {
            assert(sub[oj - from] == s@[oj as int]);
        }
        return false;
    }
    // exponent
    let mut oe: usize = ok;
    let mut exp_ok = true;
    if ok < to && (s[ok] == 'e' || s[ok] == 'E') {
        proof {
            assert(sub[ok - from] == s@[ok as int]);
        }
        let e0: usize = if ok + 1 < to && (s[ok + 1] == '+' || s[ok + 1] == '-') {
            proof {
                assert(sub[ok + 1 - from] == s@[ok + 1 as int]);
            }
            ok + 2
        } else {
            proof {
                if ok + 1 < to {
                    assert(sub[ok + 1 - from] == s@[ok + 1 as int]);
                }
            }
            ok + 1
        };
        if e0 > to {
            oe = ok;
            exp_ok = false;
            proof {
                assert(!(e0 - from < sub.len()));
                assert(digits_end(sub, e0 - from) <= sub.len()) by {
                    lemma_digits_end(sub, e0 - from);
                }
            }
        } else {
            let e1 = p_digits_end(s, e0);
            proof {
                lemma_digits_end_sub(s@, from as int, to as int, e0 - from);
                lemma_digits_end(s@, e0 as int);
            }
            let e1c = if e1 > to {
                proof {
                    assert(is_digit(s@[to as int]));
                }
                to
            } else {
                e1
            };
            if e1c > e0 {
                oe = e1c;
            } else {
                oe = ok;
                exp_ok = false;
            }
        }
    } else {
        proof {
            if ok < to {
                assert(sub[ok - from] == s@[ok as int]);
            }
        }
    }
    let wf = oe == to && exp_ok || oe == to && !(ok < to && (s[ok] == 'e' || s[ok] == 'E'));
    proof {
        if ok < to {
            assert(sub[ok - from] == s@[ok as int]);
        }
    }
    if ok < to && (s[ok] == 'e' || s[ok] == 'E') {
        oe == to && exp_ok
    } else {
        ok == to
    }
}


/// The numeric value of a hexadecimal digit character, if it is one.
fn hexv(c: char) -> (r: Option<u32>)
    ensures
        r is Some <==> is_hex(c),
        match r {
            Some(v) => v == hex_val(c) && v < 16,
            None => true,
        },
{
    let u = c as u32;
    if 48 <= u && u <= 57 {
        Some(u - 48)
    } else if 97 <= u && u <= 102 {
        Some(u - 87)
    } else if 65 <= u && u <= 70 {
        Some(u - 55)
    } else {
        None
    }
}

/// Parses the body of a string after the opening quote.
#[verifier::loop_isolation(false)]
#[verifier::rlimit(100)]
fn p_string_body(s: &Vec<char>, i: usize) -> (r: Option<(Vec<char>, usize)>)
    requires
        i <= s@.len(),
    ensures
        match r {
            Some(p) => parse_string_body(s@, i as int) == Some((p.0@, p.1 as int)) && i < p.1
                <= s@.len(),
            None => parse_string_body(s@, i as int) is None,
        },
    decreases s@.len() - i,
{
    proof {
        lemma_parse_string_body_bounds(s@, i as int);
    }
    let mut acc: Vec<char> = Vec::new();
    let mut cur: usize = i;
    loop
        invariant
            i <= cur <= s@.len(),
            match parse_string_body(s@, cur as int) {
                Some((rest, j)) => parse_string_body(s@, i as int) == Some((acc@ + rest, j)) && i
                    < j <= s@.len(),
                None => parse_string_body(s@, i as int) is None,
            },
        decreases s@.len() - cur,
    {
        proof {
            lemma_parse_string_body_bounds(s@, cur as int);
        }
        if cur >= s.len() {
            return None;
        }
        let c = s[cur];
        if c == '"' {
            proof {
                assert(parse_string_body(s@, cur as int) == Some(
                    (Seq::<char>::empty(), cur + 1 as int),
                ));
                assert(acc@ + Seq::<char>::empty() =~= acc@);
            }
            return Some((acc, cur + 1));
        } else if c == '\\' {
            if s.len() - cur < 2 {
                return None;
            }
            let d = s[cur + 1];
            let ghost acc0 = acc@;
            let ghost cur0 = cur as int;
            if d == '"' || d == '\\' || d == '/' {
                acc.push(d);
                cur = cur + 2;
                proof {
                    assert(parse_escape(s@, cur0 + 1) == Some((d, cur0 + 2)));
                    lemma_string_step(s@, cur0, d, cur0 + 2, acc0, i as int);
                }
            } else if d == 'b' {
                acc.push('\u{8}');
                cur = cur + 2;
                proof {
                    assert(parse_escape(s@, cur0 + 1) == Some(('\u{8}', cur0 + 2)));
                    lemma_string_step(s@, cur0, '\u{8}', cur0 + 2, acc0, i as int);
                }
            } else if d == 'f' {
                acc.push('\u{c}');
                cur = cur + 2;
                proof {
                    assert(parse_escape(s@, cur0 + 1) == Some(('\u{c}', cur0 + 2)));
                    lemma_string_step(s@, cur0, '\u{c}', cur0 + 2, acc0, i as int);
                }
            } else if d == 'n' {
                acc.push('\n');
                cur = cur + 2;
                proof {
                    assert(parse_escape(s@, cur0 + 1) == Some(('\n', cur0 + 2)));
                    lemma_string_step(s@, cur0, '\n', cur0 + 2, acc0, i as int);
                }
            } else if d == 'r' {
                acc.push('\r');
                cur = cur + 2;
                proof {
                    assert(parse_escape(s@, cur0 + 1) == Some(('\r', cur0 + 2)));
                    lemma_string_step(s@, cur0, '\r', cur0 + 2, acc0, i as int);
                }
            } else if d == 't' {
                acc.push('\t');
                cur = cur + 2;
                proof {
                    assert(parse_escape(s@, cur0 + 1) == Some(('\t', cur0 + 2)));
                    lemma_string_step(s@, cur0, '\t', cur0 + 2, acc0, i as int);
                }
            } else if d == 'u' {
                if s.len() - cur < 6 {
                    return None;
                }
                let h1 = hexv(s[cur + 2]);
                let h2 = hexv(s[cur + 3]);
                let h3 = hexv(s[cur + 4]);
                let h4 = hexv(s[cur + 5]);
                if h1.is_none() || h2.is_none() || h3.is_none() || h4.is_none() {
                    return None;
                }
                let h: u32 = h1.unwrap() * 0x1000 + h2.unwrap() * 0x100 + h3.unwrap() * 0x10
                    + h4.unwrap();
                if 0xD800 <= h && h < 0xE000 {
                    return None;
                }
                match char_from_u32(h) {
                    Some(ch) => {
                        acc.push(ch);
                        cur = cur + 6;
                        proof {
                            vstd::utf8::char_u32_cast(ch, h);
                            assert((h as u32) as char == ch);
                            assert(parse_escape(s@, cur0 + 1) == Some((ch, cur0 + 6)));
                            lemma_string_step(s@, cur0, ch, cur0 + 6, acc0, i as int);
                        }
                    },
                    None => {
                        proof {
                            assert(h < 0x10000);
                            assert(false);
                        }
                        return None;
                    },
                }
            } else {
                return None;
            }
        } else if (c as u32) < 0x20 {
            return None;
        } else {
            let ghost acc0 = acc@;
            let ghost cur0 = cur as int;
            acc.push(c);
            cur = cur + 1;
            proof {
                lemma_string_step(s@, cur0, c, cur0 + 1, acc0, i as int);
            }
        }
    }
}

/// One consumed string character carries the accumulated prefix forward.
proof fn lemma_string_step(s: Seq<char>, cur: int, c: char, nxt: int, acc: Seq<char>, i: int)
    requires
        0 <= i,
        0 <= cur < s.len(),
        parse_string_body(s, cur) == (match parse_string_body(s, nxt) {
            None => None::<(Seq<char>, int)>,
            Some((rest, k)) => Some((seq![c] + rest, k)),
        }),
        match parse_string_body(s, cur) {
            Some((rest, j)) => parse_string_body(s, i) == Some((acc + rest, j)) && i < j
                <= s.len(),
            None => parse_string_body(s, i) is None,
        },
    ensures
        match parse_string_body(s, nxt) {
            Some((rest, j)) => parse_string_body(s, i) == Some((acc.push(c) + rest, j)) && i < j
                <= s.len(),
            None => parse_string_body(s, i) is None,
        },
{
    match parse_string_body(s, nxt) {
        Some((rest, j)) => {
            assert(parse_string_body(s, cur) == Some((seq![c] + rest, j)));
            assert(acc + (seq![c] + rest) =~= acc.push(c) + rest);
        },
        None => {},
    }
}

/// Extracts the characters between `from` and `to`.
pub fn sub_chars(s: &Vec<char>, from: usize, to: usize) -> (r: Vec<char>)
    requires
        from <= to <= s@.len(),
    ensures
        r@ == s@.subrange(from as int, to as int),
{
    let mut out: Vec<char> = Vec::new();
    let mut x: usize = from;
    proof {
        assert(s@.subrange(from as int, from as int) =~= Seq::<char>::empty());
    }
    while x < to
        invariant
            from <= x <= to <= s@.len(),
            out@ == s@.subrange(from as int, x as int),
        decreases to - x,
    {
        out.push(s[x]);
        proof {
            assert(s@.subrange(from as int, x + 1) =~= s@.subrange(from as int, x as int).push(
                s@[x as int],
            ));
        }
        x = x + 1;
    }
    out
}

/// Parses one JSON value at `i` (no leading whitespace).
#[verifier::loop_isolation(false)]
#[verifier::rlimit(100)]
fn p_value(s: &Vec<char>, i: usize) -> (r: Option<(JsonValue, usize)>)
    requires
        i <= s@.len(),
    ensures
        match r {
            Some(p) => parse_value(s@, i as int) == Some((p.0.deep_view(), p.1 as int)) && i < p.1
                <= s@.len(),
            None => parse_value(s@, i as int) is None,
        },
    decreases s@.len() - i, 0int,
{
    proof {
        lemma_parse_value_bounds(s@, i as int);
    }
    if i >= s.len() {
        return None;
    }
    let c = s[i];
    if c == 'n' {
        if s.len() - i >= 4 && s[i + 1] == 'u' && s[i + 2] == 'l' && s[i + 3] == 'l' {
            Some((JsonValue::Null, i + 4))
        } else {
            None
        }
    } else if c == 't' {
        if s.len() - i >= 4 && s[i + 1] == 'r' && s[i + 2] == 'u' && s[i + 3] == 'e' {
            Some((JsonValue::Bool(true), i + 4))
        } else {
            None
        }
    } else if c == 'f' {
        if s.len() - i >= 5 && s[i + 1] == 'a' && s[i + 2] == 'l' && s[i + 3] == 's' && s[i + 4]
            == 'e' {
            Some((JsonValue::Bool(false), i + 5))
        } else {
            None
        }
    } else if c == '"' {
        match p_string_body(s, i + 1) {
            Some((cs, j)) => {
                let st = chars_to_string(&cs);
                Some((JsonValue::Str(st), j))
            },
            None => None,
        }
    } else if c == '[' {
        let j = p_ws(s, i + 1);
        if j < s.len() && s[j] == ']' {
            let empty: Vec<JsonValue> = Vec::new();
            proof {
                assert(deep_arr(empty@) =~= Seq::<JsonV>::empty());
            }
            Some((JsonValue::Arr(empty), j + 1))
        } else {
            match p_arr_items(s, j) {
                Some((items, k)) => Some((JsonValue::Arr(items), k)),
                None => None,
            }
        }
    } else if c == '{' {
        let j = p_ws(s, i + 1);
        if j < s.len() && s[j] == '}' {
            let empty: Vec<(String, JsonValue)> = Vec::new();
            proof {
                assert(deep_obj(empty@) =~= Seq::<(Seq<char>, JsonV)>::empty());
            }
            Some((JsonValue::Obj(empty), j + 1))
        } else {
            match p_obj_items(s, j) {
                Some((members, k)) => Some((JsonValue::Obj(members), k)),
                None => None,
            }
        }
    } else if c == '-' || is_digit_char(c) {
        let e = p_num_end(s, i);
        proof {
            lemma_num_end(s@, i as int);
            if e == i {
                assert(!is_num_char(s@[i as int]));
            }
        }
        if check_num(s, i, e) {
            let lex = sub_chars(s, i, e);
            let st = chars_to_string(&lex);
            Some((JsonValue::Num(st), e))
        } else {
            None
        }
    } else {
        None
    }
}

/// Parses the members of a non-empty array from the first value on.
#[verifier::loop_isolation(false)]
#[verifier::rlimit(100)]
fn p_arr_items(s: &Vec<char>, i: usize) -> (r: Option<(Vec<JsonValue>, usize)>)
    requires
        i <= s@.len(),
    ensures
        match r {
            Some(p) => parse_arr_items(s@, i as int) == Some((deep_arr(p.0@), p.1 as int)) && i
                < p.1 <= s@.len(),
            None => parse_arr_items(s@, i as int) is None,
        },
    decreases s@.len() - i, 1int,
{
    let mut acc: Vec<JsonValue> = Vec::new();
    let mut cur: usize = i;
    proof {
        assert(deep_arr(acc@) =~= Seq::<JsonV>::empty());
        match parse_arr_items(s@, i as int) {
            Some((rest, j)) => {
                assert(deep_arr(acc@) + rest =~= rest);
                lemma_parse_arr_items_bounds(s@, i as int);
            },
            None => {},
        }
    }
    loop
        invariant
            i <= cur <= s@.len(),
            match parse_arr_items(s@, cur as int) {
                Some((rest, j)) => parse_arr_items(s@, i as int) == Some(
                    (deep_arr(acc@) + rest, j),
                ) && i < j <= s@.len(),
                None => parse_arr_items(s@, i as int) is None,
            },
        decreases s@.len() - cur,
    {
        proof {
            lemma_parse_arr_items_bounds(s@, cur as int);
            lemma_parse_value_bounds(s@, cur as int);
        }
        match p_value(s, cur) {
            None => {
                return None;
            },
            Some((v, j)) => {
                let ghost acc0 = acc@;
                let ghost cur0 = cur as int;
                acc.push(v);
                proof {
                    assert(acc@.drop_last() =~= acc0);
                    assert(acc@.last() == v);
                    assert(deep_arr(acc@) == deep_arr(acc0).push(v.deep_view()));
                }
                let k = p_ws(s, j);
                if k < s.len() && s[k] == ',' {
                    let n = p_ws(s, k + 1);
                    proof {
                        match parse_arr_items(s@, n as int) {
                            Some((rest, j2)) => {
                                assert(parse_arr_items(s@, cur0) == Some(
                                    (seq![v.deep_view()] + rest, j2),
                                ));
                                assert(deep_arr(acc0) + (seq![v.deep_view()] + rest) =~= deep_arr(
                                    acc@,
                                ) + rest);
                            },
                            None => {
                                assert(parse_arr_items(s@, cur0) is None);
                            },
                        }
                    }
                    cur = n;
                } else if k < s.len() && s[k] == ']' {
                    proof {
                        assert(parse_arr_items(s@, cur0) == Some(
                            (seq![v.deep_view()], k + 1 as int),
                        ));
                        assert(deep_arr(acc0) + seq![v.deep_view()] =~= deep_arr(acc@));
                        assert(deep_arr(acc@) + Seq::<JsonV>::empty() =~= deep_arr(acc@));
                    }
                    return Some((acc, k + 1));
                } else {
                    return None;
                }
            },
        }
    }
}

/// Parses the members of a non-empty object from the first key on.
#[verifier::loop_isolation(false)]
#[verifier::rlimit(100)]
fn p_obj_items(s: &Vec<char>, i: usize) -> (r: Option<(Vec<(String, JsonValue)>, usize)>)
    requires
        i <= s@.len(),
    ensures
        match r {
            Some(p) => parse_obj_items(s@, i as int) == Some((deep_obj(p.0@), p.1 as int)) && i
                < p.1 <= s@.len(),
            None => parse_obj_items(s@, i as int) is None,
        },
    decreases s@.len() - i, 1int,
{
    let mut acc: Vec<(String, JsonValue)> = Vec::new();
    let mut cur: usize = i;
    proof {
        assert(deep_obj(acc@) =~= Seq::<(Seq<char>, JsonV)>::empty());
        match parse_obj_items(s@, i as int) {
            Some((rest, j)) => {
                assert(deep_obj(acc@) + rest =~= rest);
                lemma_parse_obj_items_bounds(s@, i as int);
            },
            None => {},
        }
    }
    loop
        invariant
            i <= cur <= s@.len(),
            match parse_obj_items(s@, cur as int) {
                Some((rest, j)) => parse_obj_items(s@, i as int) == Some(
                    (deep_obj(acc@) + rest, j),
                ) && i < j <= s@.len(),
                None => parse_obj_items(s@, i as int) is None,
            },
        decreases s@.len() - cur,
    {
        proof {
            lemma_parse_obj_items_bounds(s@, cur as int);
        }
        if cur >= s.len() {
            return None;
        }
        if s[cur] != '"' {
            return None;
        }
        proof {
            lemma_parse_string_body_bounds(s@, cur + 1);
        }
        match p_string_body(s, cur + 1) {
            None => {
                return None;
            },
            Some((key_cs, j)) => {
                let key = chars_to_string(&key_cs);
                let k = p_ws(s, j);
                if !(k < s.len() && s[k] == ':') {
                    return None;
                }
                let m = p_ws(s, k + 1);
                proof {
                    lemma_parse_value_bounds(s@, m as int);
                }
                match p_value(s, m) {
                    None => {
                        return None;
                    },
                    Some((v, n)) => {
                        let ghost acc0 = acc@;
                        let ghost cur0 = cur as int;
                        acc.push((key, v));
                        proof {
                            assert(acc@.drop_last() =~= acc0);
                            assert(acc@.last() == (key, v));
                            assert(deep_obj(acc@) == deep_obj(acc0).push(
                                (key@, v.deep_view()),
                            ));
                            assert(key@ == key_cs@);
                        }
                        let p = p_ws(s, n);
                        if p < s.len() && s[p] == ',' {
                            let q = p_ws(s, p + 1);
                            proof {
                                match parse_obj_items(s@, q as int) {
                                    Some((rest, j2)) => {
                                        assert(parse_obj_items(s@, cur0) == Some(
                                            (seq![(key_cs@, v.deep_view())] + rest, j2),
                                        ));
                                        assert(deep_obj(acc0) + (seq![(key_cs@, v.deep_view())]
                                            + rest) =~= deep_obj(acc@) + rest);
                                    },
                                    None => {
                                        assert(parse_obj_items(s@, cur0) is None);
                                    },
                                }
                            }
                            cur = q;
                        } else if p < s.len() && s[p] == '}' {
                            proof {
                                assert(parse_obj_items(s@, cur0) == Some(
                                    (seq![(key_cs@, v.deep_view())], p + 1 as int),
                                ));
                                assert(deep_obj(acc0) + seq![(key_cs@, v.deep_view())]
                                    =~= deep_obj(acc@));
                                assert(deep_obj(acc@) + Seq::<(Seq<char>, JsonV)>::empty()
                                    =~= deep_obj(acc@));
                            }
                            return Some((acc, p + 1));
                        } else {
                            return None;
                        }
                    },
                }
            },
        }
    }
}

/// Parses a whole document from characters: leading and trailing
/// whitespace allowed, nothing else around the one value.
pub fn parse_json_chars(s: &Vec<char>) -> (r: Option<JsonValue>)
    ensures
        match r {
            Some(v) => parse_document(s@) == Some(v.deep_view()),
            None => parse_document(s@) is None,
        },
{
    let i = p_ws(s, 0);
    match p_value(s, i) {
        None => None,
        Some((v, j)) => {
            let k = p_ws(s, j);
            if k == s.len() {
                Some(v)
            } else {
                None
            }
        },
    }
}

/// Parses a whole document from a string slice.
pub fn parse_json_str(t: &str) -> (r: Option<JsonValue>)
    ensures
        match r {
            Some(v) => parse_document(t@) == Some(v.deep_view()),
            None => parse_document(t@) is None,
        },
{
    let cs = str_to_chars(t);
    parse_json_chars(&cs)
}


// ------------------------------------------------------------------
// Working with documents
// ------------------------------------------------------------------

/// The first binding of `k` among object members.
pub open spec fn obj_get_v(o: Seq<(Seq<char>, JsonV)>, k: Seq<char>) -> Option<JsonV>
    decreases o.len(),
{
    if o.len() == 0 {
        None
    } else if o[0].0 == k {
        Some(o[0].1)
    } else {
        obj_get_v(o.drop_first(), k)
    }
}

/// The member `k` of a document, if the document is an object that has it.
pub open spec fn jv_get(v: JsonV, k: Seq<char>) -> Option<JsonV> {
    match v {
        JsonV::Obj(o) => obj_get_v(o, k),
        _ => None,
    }
}

/// Whether two string slices hold the same characters.
pub fn str_eq(a: &str, b: &str) -> (r: bool)
    ensures
        r == (a@ == b@),
{
    let la = a.unicode_len();
    let lb = b.unicode_len();
    if la != lb {
        return false;
    }
    let mut i: usize = 0;
    while i < la
        invariant
            i <= la,
            la == a@.len() == lb == b@.len(),
            forall|k: int| 0 <= k < i ==> a@[k] == b@[k],
        decreases la - i,
    {
        if a.get_char(i) != b.get_char(i) {
            return false;
        }
        i = i + 1;
    }
    proof {
        assert(a@ =~= b@);
    }
    true
}

/// Looks a key up among object members: the first binding wins.
pub fn obj_get<'a>(o: &'a Vec<(String, JsonValue)>, k: &str) -> (r: Option<&'a JsonValue>)
    ensures
        match r {
            Some(v) => obj_get_v(deep_obj(o@), k@) == Some(v.deep_view()),
            None => obj_get_v(deep_obj(o@), k@) is None,
        },
{
    proof {
        lemma_deep_obj(o@);
        assert(deep_obj(o@).skip(0) =~= deep_obj(o@));
    }
    let mut i: usize = 0;
    while i < o.len()
        invariant
            i <= o@.len(),
            deep_obj(o@).len() == o@.len(),
            forall|x: int| 0 <= x < o@.len() ==> (#[trigger] deep_obj(o@)[x]).0 == o@[x].0@
                && deep_obj(o@)[x].1 == o@[x].1.deep_view(),
            obj_get_v(deep_obj(o@), k@) == obj_get_v(deep_obj(o@).skip(i as int), k@),
        decreases o@.len() - i,
    {
        proof {
            assert(deep_obj(o@).skip(i as int).len() > 0);
            assert(deep_obj(o@).skip(i as int)[0] == deep_obj(o@)[i as int]);
        }
        if str_eq(o[i].0.as_str(), k) {
            return Some(&o[i].1);
        }
        proof {
            assert(deep_obj(o@).skip(i as int).drop_first() =~= deep_obj(o@).skip(i + 1));
        }
        i = i + 1;
    }
    proof {
        assert(deep_obj(o@).skip(i as int) =~= Seq::<(Seq<char>, JsonV)>::empty());
    }
    None
}

/// The member `k` of a document, if it is an object that has it.
pub fn json_get<'a>(v: &'a JsonValue, k: &str) -> (r: Option<&'a JsonValue>)
    ensures
        match r {
            Some(m) => jv_get(v.deep_view(), k@) == Some(m.deep_view()),
            None => jv_get(v.deep_view(), k@) is None,
        },
{
    match v {
        JsonValue::Obj(o) => obj_get(o, k),
        _ => None,
    }
}

/// The characters of a document, if it is a string.
pub fn json_as_str<'a>(v: &'a JsonValue) -> (r: Option<&'a String>)
    ensures
        match r {
            Some(t) => v.deep_view() == JsonV::Str(t@),
            None => !(v.deep_view() is Str),
        },
{
    match v {
        JsonValue::Str(t) => Some(t),
        _ => None,
    }
}

/// The value of a document, if it is a boolean.
pub fn json_as_bool(v: &JsonValue) -> (r: Option<bool>)
    ensures
        match r {
            Some(b) => v.deep_view() == JsonV::Bool(b),
            None => !(v.deep_view() is Bool),
        },
{
    match v {
        JsonValue::Bool(b) => Some(*b),
        _ => None,
    }
}

/// The members of a document, if it is an array.
pub fn json_as_arr<'a>(v: &'a JsonValue) -> (r: Option<&'a Vec<JsonValue>>)
    ensures
        match r {
            Some(a) => v.deep_view() == JsonV::Arr(deep_arr(a@)),
            None => !(v.deep_view() is Arr),
        },
{
    match v {
        JsonValue::Arr(a) => Some(a),
        _ => None,
    }
}

/// The members of a document, if it is an object.
pub fn json_as_obj<'a>(v: &'a JsonValue) -> (r: Option<&'a Vec<(String, JsonValue)>>)
    ensures
        match r {
            Some(o) => v.deep_view() == JsonV::Obj(deep_obj(o@)),
            None => !(v.deep_view() is Obj),
        },
{
    match v {
        JsonValue::Obj(o) => Some(o),
        _ => None,
    }
}

/// What an integer lexeme denotes: the value of its digits, if it is a
/// plain unsigned integer that fits in a `u64`.
pub open spec fn lex_u64(s: Seq<char>) -> Option<u64> {
    if s.len() > 0 && all_digits(s) && dec_val(s) <= u64::MAX {
        Some(dec_val(s) as u64)
    } else {
        None
    }
}

/// The value of a document, if it is a plain unsigned integer that fits
/// in a `u64`.
pub fn json_as_u64(v: &JsonValue) -> (r: Option<u64>)
    ensures
        match r {
            Some(n) => v.deep_view() matches JsonV::Num(s) && lex_u64(s) == Some(n),
            None => !(v.deep_view() matches JsonV::Num(s) && lex_u64(s) is Some),
        },
{
    match v {
        JsonValue::Num(t) => {
            let cs = str_to_chars(t.as_str());
            let r = parse_u64_digits(cs.as_slice(), 0, cs.len());
            proof {
                assert(cs@.subrange(0, cs@.len() as int) =~= t@);
            }
            r
        },
        _ => None,
    }
}

/// Whether two documents have the same shape and contents.
#[verifier::loop_isolation(false)]
#[verifier::rlimit(100)]
pub fn json_eq(a: &JsonValue, b: &JsonValue) -> (r: bool)
    ensures
        r == (a.deep_view() == b.deep_view()),
    decreases a,
{
    match (a, b) {
        (JsonValue::Null, JsonValue::Null) => true,
        (JsonValue::Bool(x), JsonValue::Bool(y)) => x == y,
        (JsonValue::Num(x), JsonValue::Num(y)) => str_eq(x.as_str(), y.as_str()),
        (JsonValue::Str(x), JsonValue::Str(y)) => str_eq(x.as_str(), y.as_str()),
        (JsonValue::Arr(x), JsonValue::Arr(y)) => {
            proof {
                lemma_deep_arr(x@);
                lemma_deep_arr(y@);
            }
            if x.len() != y.len() {
                return false;
            }
            let mut i: usize = 0;
            while i < x.len()
                invariant
                    *a == JsonValue::Arr(*x),
                    i <= x@.len(),
                    forall|k: int| 0 <= k < i ==> deep_arr(x@)[k] == deep_arr(y@)[k],
                decreases x@.len() - i,
            {
                if !json_eq(&x[i], &y[i]) {
                    proof {
                        assert(deep_arr(x@)[i as int] == x@[i as int].deep_view());
                        assert(deep_arr(y@)[i as int] == y@[i as int].deep_view());
                        assert(deep_arr(x@) != deep_arr(y@));
                        assert(a.deep_view() == JsonV::Arr(deep_arr(x@)));
                        assert(b.deep_view() == JsonV::Arr(deep_arr(y@)));
                    }
                    return false;
                }
                i = i + 1;
            }
            proof {
                assert(deep_arr(x@) =~= deep_arr(y@));
            }
            true
        },
        (JsonValue::Obj(x), JsonValue::Obj(y)) => {
            proof {
                lemma_deep_obj(x@);
                lemma_deep_obj(y@);
            }
            if x.len() != y.len() {
                return false;
            }
            let mut i: usize = 0;
            while i < x.len()
                invariant
                    *a == JsonValue::Obj(*x),
                    i <= x@.len(),
                    forall|k: int| 0 <= k < i ==> deep_obj(x@)[k] == deep_obj(y@)[k],
                decreases x@.len() - i,
            {
                if !str_eq(x[i].0.as_str(), y[i].0.as_str()) {
                    proof {
                        assert(deep_obj(x@)[i as int].0 == x@[i as int].0@);
                        assert(deep_obj(y@)[i as int].0 == y@[i as int].0@);
                        assert(deep_obj(x@) != deep_obj(y@));
                        assert(a.deep_view() == JsonV::Obj(deep_obj(x@)));
                        assert(b.deep_view() == JsonV::Obj(deep_obj(y@)));
                    }
                    return false;
                }
                if !json_eq(&x[i].1, &y[i].1) {
                    proof {
                        assert(deep_obj(x@)[i as int].1 == x@[i as int].1.deep_view());
                        assert(deep_obj(y@)[i as int].1 == y@[i as int].1.deep_view());
                        assert(deep_obj(x@) != deep_obj(y@));
                        assert(a.deep_view() == JsonV::Obj(deep_obj(x@)));
                        assert(b.deep_view() == JsonV::Obj(deep_obj(y@)));
                    }
                    return false;
                }
                i = i + 1;
            }
            proof {
                assert(deep_obj(x@) =~= deep_obj(y@));
            }
            true
        },
        _ => {
            proof {
                assert(a.deep_view() != b.deep_view());
            }
            false
        },
    }
}

/// A fresh document with the same shape and contents.
#[verifier::loop_isolation(false)]
#[verifier::rlimit(100)]
pub fn json_copy(v: &JsonValue) -> (r: JsonValue)
    ensures
        r.deep_view() == v.deep_view(),
    decreases v,
{
    match v {
        JsonValue::Null => JsonValue::Null,
        JsonValue::Bool(b) => JsonValue::Bool(*b),
        JsonValue::Num(t) => JsonValue::Num(t.clone()),
        JsonValue::Str(t) => JsonValue::Str(t.clone()),
        JsonValue::Arr(a) => {
            proof {
                lemma_deep_arr(a@);
            }
            let mut out: Vec<JsonValue> = Vec::new();
            let mut i: usize = 0;
            while i < a.len()
                invariant
                    *v == JsonValue::Arr(*a),
                    i <= a@.len(),
                    out@.len() == i,
                    forall|k: int| 0 <= k < i ==> (#[trigger] out@[k]).deep_view()
                        == a@[k].deep_view(),
                decreases a@.len() - i,
            {
                let c = json_copy(&a[i]);
                out.push(c);
                i = i + 1;
            }
            proof {
                lemma_deep_arr(out@);
                assert(deep_arr(out@) =~= deep_arr(a@));
            }
            JsonValue::Arr(out)
        },
        JsonValue::Obj(o) => {
            proof {
                lemma_deep_obj(o@);
            }
            let mut out: Vec<(String, JsonValue)> = Vec::new();
            let mut i: usize = 0;
            while i < o.len()
                invariant
                    *v == JsonValue::Obj(*o),
                    i <= o@.len(),
                    out@.len() == i,
                    forall|k: int| 0 <= k < i ==> (#[trigger] out@[k]).0@ == o@[k].0@
                        && out@[k].1.deep_view() == o@[k].1.deep_view(),
                decreases o@.len() - i,
            {
                let c = json_copy(&o[i].1);
                let key = o[i].0.clone();
                out.push((key, c));
                i = i + 1;
            }
            proof {
                lemma_deep_obj(out@);
                assert(deep_obj(out@) =~= deep_obj(o@));
            }
            JsonValue::Obj(out)
        },
    }
}


/// Whether the members hold a binding of `k`.
pub open spec fn has_key(o: Seq<(Seq<char>, JsonV)>, k: Seq<char>) -> bool {
    exists|i: int| 0 <= i < o.len() && o[i].0 == k
}

/// A lookup in concatenated members takes the first list's binding when
/// it has one.
pub proof fn lemma_obj_get_concat(a: Seq<(Seq<char>, JsonV)>, b: Seq<(Seq<char>, JsonV)>, k: Seq<char>)
    ensures
        has_key(a, k) ==> obj_get_v(a + b, k) == obj_get_v(a, k),
        !has_key(a, k) ==> obj_get_v(a + b, k) == obj_get_v(b, k),
    decreases a.len(),
{
    if a.len() == 0 {
        assert(a + b =~= b);
    } else {
        assert((a + b)[0] == a[0]);
        if a[0].0 == k {
        } else {
            assert((a + b).drop_first() =~= a.drop_first() + b);
            lemma_obj_get_concat(a.drop_first(), b, k);
            assert(has_key(a, k) == has_key(a.drop_first(), k)) by {
                if has_key(a, k) {
                    let i = choose|i: int| 0 <= i < a.len() && a[i].0 == k;
                    assert(a.drop_first()[i - 1] == a[i]);
                }
                if has_key(a.drop_first(), k) {
                    let i = choose|i: int| 0 <= i < a.drop_first().len() && a.drop_first()[i].0
                        == k;
                    assert(a[i + 1] == a.drop_first()[i]);
                }
            }
        }
    }
}


/// Members without a binding of `k` yield no lookup result.
pub proof fn lemma_obj_get_no_key(o: Seq<(Seq<char>, JsonV)>, k: Seq<char>)
    requires
        forall|i: int| 0 <= i < o.len() ==> (#[trigger] o[i]).0 != k,
    ensures
        obj_get_v(o, k) is None,
    decreases o.len(),
{
    if o.len() > 0 {
        assert forall|i: int| 0 <= i < o.drop_first().len() implies (#[trigger] o.drop_first()[i]).0
            != k by {
            assert(o.drop_first()[i] == o[i + 1]);
        }
        lemma_obj_get_no_key(o.drop_first(), k);
    }
}


/// The deep views of concatenated document lists concatenate.
pub proof fn lemma_deep_arr_append(a: Seq<JsonValue>, b: Seq<JsonValue>)
    ensures
        deep_arr(a + b) == deep_arr(a) + deep_arr(b),
    decreases b.len(),
{
    if b.len() == 0 {
        assert(a + b =~= a);
        assert(deep_arr(a) + deep_arr(b) =~= deep_arr(a));
    } else {
        lemma_deep_arr_append(a, b.drop_last());
        assert((a + b).drop_last() =~= a + b.drop_last());
        assert((a + b).last() == b.last());
        assert(deep_arr(a + b) == deep_arr(a + b.drop_last()).push((a + b).last().deep_view()));
        assert(deep_arr(a) + deep_arr(b) =~= (deep_arr(a) + deep_arr(b.drop_last())).push(
            b.last().deep_view(),
        ));
    }
}

/// Fresh copies of a list of documents.
pub fn copy_json_items(v: &Vec<JsonValue>) -> (r: Vec<JsonValue>)
    ensures
        deep_arr(r@) == deep_arr(v@),
{
    proof {
        lemma_deep_arr(v@);
    }
    let mut out: Vec<JsonValue> = Vec::new();
    let mut i: usize = 0;
    #[verifier::loop_isolation(false)]
    while i < v.len()
        invariant
            i <= v@.len(),
            out@.len() == i,
            forall|k: int| 0 <= k < i ==> (#[trigger] out@[k]).deep_view() == v@[k].deep_view(),
        decreases v@.len() - i,
    {
        out.push(json_copy(&v[i]));
        i = i + 1;
    }
    proof {
        lemma_deep_arr(out@);
        assert(deep_arr(out@) =~= deep_arr(v@));
    }
    out
}


// ------------------------------------------------------------------
// Parsed documents are well formed
// ------------------------------------------------------------------

/// Whatever the parser yields can be printed and parsed back: every
/// number lexeme it accepts is well formed.
pub proof fn lemma_parse_value_wf(s: Seq<char>, i: int)
    ensures
        parse_value(s, i) matches Some(p) ==> json_wf(p.0),
    decreases s.len() - i, 1int,
{
    if 0 <= i < s.len() {
        let c = s[i];
        if c == '"' {
        } else if c == '[' {
            let j = ws_end(s, i + 1);
            if !(j < s.len() && s[j] == ']') {
                lemma_parse_arr_items_wf(s, j);
            }
        } else if c == '{' {
            let j = ws_end(s, i + 1);
            if !(j < s.len() && s[j] == '}') {
                lemma_parse_obj_items_wf(s, j);
            }
        }
    }
}

/// Every member of a parsed array is well formed.
pub proof fn lemma_parse_arr_items_wf(s: Seq<char>, i: int)
    ensures
        parse_arr_items(s, i) matches Some(p) ==> forall|k: int|
            0 <= k < p.0.len() ==> json_wf(#[trigger] p.0[k]),
    decreases s.len() - i, 2int,
{
    lemma_parse_value_wf(s, i);
    match parse_value(s, i) {
        Some((v, j)) => {
            if i < j <= s.len() {
                let k2 = ws_end(s, j);
                if k2 < s.len() && s[k2] == ',' {
                    let n = ws_end(s, k2 + 1);
                    lemma_parse_arr_items_wf(s, n);
                    match parse_arr_items(s, n) {
                        Some((rest, _)) => {
                            assert forall|k: int|
                                0 <= k < parse_arr_items(s, i).unwrap().0.len() implies json_wf(
                                #[trigger] parse_arr_items(s, i).unwrap().0[k],
                            ) by {
                                if k > 0 {
                                    assert(parse_arr_items(s, i).unwrap().0[k] == rest[k - 1]);
                                }
                            }
                        },
                        None => {},
                    }
                }
            }
        },
        None => {},
    }
}

/// Every member value of a parsed object is well formed.
pub proof fn lemma_parse_obj_items_wf(s: Seq<char>, i: int)
    ensures
        parse_obj_items(s, i) matches Some(p) ==> forall|k: int|
            0 <= k < p.0.len() ==> json_wf((#[trigger] p.0[k]).1),
    decreases s.len() - i, 2int,
{
    if 0 <= i < s.len() && s[i] == '"' {
        match parse_string_body(s, i + 1) {
            Some((key, j)) => {
                if i < j <= s.len() {
                    let k2 = ws_end(s, j);
                    if k2 < s.len() && s[k2] == ':' {
                        let m = ws_end(s, k2 + 1);
                        lemma_parse_value_wf(s, m);
                        match parse_value(s, m) {
                            Some((v, n)) => {
                                if m < n <= s.len() {
                                    let p = ws_end(s, n);
                                    if p < s.len() && s[p] == ',' {
                                        let q = ws_end(s, p + 1);
                                        lemma_parse_obj_items_wf(s, q);
                                        match parse_obj_items(s, q) {
                                            Some((rest, _)) => {
                                                assert forall|k: int|
                                                    0 <= k < parse_obj_items(
                                                        s,
                                                        i,
                                                    ).unwrap().0.len() implies json_wf(
                                                    (#[trigger] parse_obj_items(
                                                        s,
                                                        i,
                                                    ).unwrap().0[k]).1,
                                                ) by {
                                                    if k > 0 {
                                                        assert(parse_obj_items(
                                                            s,
                                                            i,
                                                        ).unwrap().0[k] == rest[k - 1]);
                                                    }
                                                }
                                            },
                                            None => {},
                                        }
                                    }
                                }
                            },
                            None => {},
                        }
                    }
                }
            },
            None => {},
        }
    }
}

/// A parsed document is well formed: printing it and parsing the text
/// back yields it again.
pub proof fn lemma_parse_document_wf(s: Seq<char>)
    ensures
        parse_document(s) matches Some(v) ==> json_wf(v),
{
    lemma_parse_value_wf(s, ws_end(s, 0));
}

/// A member looked up in well-formed members is well formed.
pub proof fn lemma_obj_get_wf(o: Seq<(Seq<char>, JsonV)>, k: Seq<char>)
    requires
        forall|i: int| 0 <= i < o.len() ==> json_wf((#[trigger] o[i]).1),
    ensures
        obj_get_v(o, k) matches Some(v) ==> json_wf(v),
    decreases o.len(),
{
    if o.len() > 0 && o[0].0 != k {
        assert forall|i: int| 0 <= i < o.drop_first().len() implies json_wf(
            (#[trigger] o.drop_first()[i]).1,
        ) by {
            assert(o.drop_first()[i] == o[i + 1]);
        }
        lemma_obj_get_wf(o.drop_first(), k);
    }
}

} // verus!

//! The JSON codec for the argument tree: pretty-printed encoding and a
//! strict parser, each pinned to a mathematical grammar.
//!
//! The encoder writes the two-space pretty form. The parser accepts one
//! JSON text with surrounding white space: objects keep their keys in
//! first-appearance order with a later duplicate overwriting in place,
//! numbers without fraction or exponent that fit an `i64` become
//! integers, and every other number is carried as its literal text.

use vstd::prelude::*;
use crate::numtext::{
    digit_char, i64_to_chars, is_digit_char, parse_i64_chars, spec_int_chars, spec_parse_i64,
};
use crate::text::{chars_eq_str, chars_to_string, push_all, str_to_chars, subvec};
use crate::value::{
    entries_view, lemma_entries_view_index, lemma_entries_view_len, lemma_list_view_index,
    lemma_list_view_len, list_view, map_insert, spec_map_insert, value_view, Value, ValueV,
};

verus! {

broadcast use vstd::seq::group_seq_axioms, vstd::std_specs::vec::group_vec_axioms;

/// The lower-case hexadecimal digit character for a value below 16.
pub open spec fn hex_char(d: int) -> char {
    if d < 10 {
        digit_char(d)
    } else if d == 10 {
        'a'
    } else if d == 11 {
        'b'
    } else if d == 12 {
        'c'
    } else if d == 13 {
        'd'
    } else if d == 14 {
        'e'
    } else {
        'f'
    }
}

/// What one character becomes inside a JSON string literal.
pub open spec fn json_escape_char(c: char) -> Seq<char> {
    if c == '"' {
        seq!['\\', '"']
    } else if c == '\\' {
        seq!['\\', '\\']
    } else if c == '\n' {
        seq!['\\', 'n']
    } else if c == '\r' {
        seq!['\\', 'r']
    } else if c == '\t' {
        seq!['\\', 't']
    } else if c == '\u{0008}' {
        seq!['\\', 'b']
    } else if c == '\u{000C}' {
        seq!['\\', 'f']
    } else if (c as u32) < 0x20 {
        seq!['\\', 'u', '0', '0', hex_char((c as u32) as int / 16), hex_char((c as u32) as int % 16)]
    } else {
        seq![c]
    }
}

/// The body of a JSON string literal, character by character.
pub open spec fn json_escaped(s: Seq<char>) -> Seq<char>
    decreases s.len(),
{
    if s.len() == 0 {
        Seq::empty()
    } else {
        json_escape_char(s[0]) + json_escaped(s.skip(1))
    }
}

/// A JSON string literal with its quotes.
pub open spec fn json_string(s: Seq<char>) -> Seq<char> {
    seq!['"'] + json_escaped(s) + seq!['"']
}

/// The characters `null`.
pub open spec fn null_chars() -> Seq<char> {
    seq!['n', 'u', 'l', 'l']
}

/// The characters `true`.
pub open spec fn true_chars() -> Seq<char> {
    seq!['t', 'r', 'u', 'e']
}

/// The characters `false`.
pub open spec fn false_chars() -> Seq<char> {
    seq!['f', 'a', 'l', 's', 'e']
}

/// Two more spaces of indent.
pub open spec fn deeper(ind: Seq<char>) -> Seq<char> {
    ind + seq![' ', ' ']
}

/// The pretty encoding of a value at the given indent.
pub open spec fn json_of(v: ValueV, ind: Seq<char>) -> Seq<char>
    decreases v,
{
    match v {
        ValueV::Null => null_chars(),
        ValueV::Bool(b) => if b {
            true_chars()
        } else {
            false_chars()
        },
        ValueV::Int(n) => spec_int_chars(n),
        ValueV::Float(t) => t,
        ValueV::Text(s) => json_string(s),
        ValueV::List(xs) => if xs.len() == 0 {
            seq!['[', ']']
        } else {
            seq!['[', '\n'] + json_items(xs, deeper(ind)) + seq!['\n'] + ind + seq![']']
        },
        ValueV::Mapping(es) => if es.len() == 0 {
            seq!['{', '}']
        } else {
            seq!['{', '\n'] + json_members(es, deeper(ind)) + seq!['\n'] + ind + seq!['}']
        },
    }
}

/// The encoded elements of a non-empty array, separated by comma and line
/// feed, each on its own indented line.
pub open spec fn json_items(xs: Seq<ValueV>, ind: Seq<char>) -> Seq<char>
    decreases xs,
{
    if xs.len() == 0 {
        Seq::empty()
    } else if xs.len() == 1 {
        ind + json_of(xs[0], ind)
    } else {
        ind + json_of(xs[0], ind) + seq![',', '\n'] + json_items(xs.skip(1), ind)
    }
}

/// The encoded members of a non-empty object, `"key": value` lines
/// separated by comma and line feed.
pub open spec fn json_members(es: Seq<(Seq<char>, ValueV)>, ind: Seq<char>) -> Seq<char>
    decreases es,
{
    if es.len() == 0 {
        Seq::empty()
    } else if es.len() == 1 {
        ind + json_string(es[0].0) + seq![':', ' '] + json_of(es[0].1, ind)
    } else {
        ind + json_string(es[0].0) + seq![':', ' '] + json_of(es[0].1, ind) + seq![',', '\n']
            + json_members(es.skip(1), ind)
    }
}

/// JSON white space.
pub open spec fn is_json_ws(c: char) -> bool {
    c == ' ' || c == '\t' || c == '\n' || c == '\r'
}

/// The first index at or after `i` that holds something other than JSON
/// white space, or the length.
pub open spec fn ws_end(s: Seq<char>, i: int) -> int
    decreases s.len() - i,
{
    if i < 0 || i >= s.len() {
        s.len() as int
    } else if is_json_ws(s[i]) {
        ws_end(s, i + 1)
    } else {
        i
    }
}

/// The first index at or after `i` that holds a non-digit, or the length.
pub open spec fn digits_end(s: Seq<char>, i: int) -> int
    decreases s.len() - i,
{
    if i < 0 || i >= s.len() {
        s.len() as int
    } else if is_digit_char(s[i]) {
        digits_end(s, i + 1)
    } else {
        i
    }
}

/// The value of a hexadecimal digit character, or 16 for anything else.
pub open spec fn hex_val(c: char) -> int {
    if '0' <= c && c <= '9' {
        c as int - '0' as int
    } else if 'a' <= c && c <= 'f' {
        10 + c as int - 'a' as int
    } else if 'A' <= c && c <= 'F' {
        10 + c as int - 'A' as int
    } else {
        16
    }
}

/// The character with the given code point.
pub open spec fn char_of_code(x: int) -> char {
    choose|c: char| #![trigger code_of(c)] code_of(c) == x
}

/// A character's code point.
pub open spec fn code_of(c: char) -> int {
    c as int
}

/// Whether a code point is a valid character: not a surrogate, within the
/// Unicode range.
pub open spec fn valid_code(x: int) -> bool {
    (0 <= x < 0xD800) || (0xE000 <= x <= 0x10FFFF)
}

/// One parsed escape after a backslash: the character it stands for and
/// the position after it.
pub open spec fn spec_parse_escape(s: Seq<char>, i: int) -> Option<(char, int)> {
    if i >= s.len() {
        None
    } else {
        let c = s[i];
        if c == '"' {
            Some(('"', i + 1))
        } else if c == '\\' {
            Some(('\\', i + 1))
        } else if c == '/' {
            Some(('/', i + 1))
        } else if c == 'n' {
            Some(('\n', i + 1))
        } else if c == 'r' {
            Some(('\r', i + 1))
        } else if c == 't' {
            Some(('\t', i + 1))
        } else if c == 'b' {
            Some(('\u{0008}', i + 1))
        } else if c == 'f' {
            Some(('\u{000C}', i + 1))
        } else if c == 'u' {
            match spec_parse_hex4(s, i + 1) {
                None => None,
                Some(h) => if 0xD800 <= h < 0xDC00 {
                    // a high surrogate must pair with a following low one
                    if i + 11 <= s.len() && s[i + 5] == '\\' && s[i + 6] == 'u' {
                        match spec_parse_hex4(s, i + 7) {
                            None => None,
                            Some(l) => if 0xDC00 <= l < 0xE000 {
                                Some(
                                    (
                                        char_of_code(
                                            0x10000 + (h - 0xD800) * 0x400 + (l - 0xDC00),
                                        ),
                                        i + 11,
                                    ),
                                )
                            } else {
                                None
                            },
                        }
                    } else {
                        None
                    }
                } else if 0xDC00 <= h < 0xE000 {
                    None
                } else {
                    Some((char_of_code(h), i + 5))
                },
            }
        } else {
            None
        }
    }
}

/// Four hexadecimal digits read as a code unit.
pub open spec fn spec_parse_hex4(s: Seq<char>, i: int) -> Option<int> {
    if i + 4 <= s.len() && hex_val(s[i]) < 16 && hex_val(s[i + 1]) < 16 && hex_val(s[i + 2]) < 16
        && hex_val(s[i + 3]) < 16 {
        Some(hex_val(s[i]) * 4096 + hex_val(s[i + 1]) * 256 + hex_val(s[i + 2]) * 16 + hex_val(
            s[i + 3],
        ))
    } else {
        None
    }
}

/// The body of a string literal parsed from just after the opening quote:
/// the characters up to the closing quote and the position after it.
pub open spec fn spec_parse_string(s: Seq<char>, i: int) -> Option<(Seq<char>, int)>
    decreases s.len() - i,
{
    if i < 0 || i >= s.len() {
        None
    } else {
        let c = s[i];
        if c == '"' {
            Some((Seq::empty(), i + 1))
        } else if c == '\\' {
            match spec_parse_escape(s, i + 1) {
                None => None,
                Some((e, j)) => if j <= i + 1 || j > s.len() {
                    None
                } else {
                    match spec_parse_string(s, j) {
                        None => None,
                        Some((rest, k)) => Some((seq![e] + rest, k)),
                    }
                },
            }
        } else if (c as u32) < 0x20 {
            None
        } else {
            match spec_parse_string(s, i + 1) {
                None => None,
                Some((rest, k)) => Some((seq![c] + rest, k)),
            }
        }
    }
}

/// The extent of a number starting at `i`: the position after it, or
/// nothing if no well-formed JSON number starts here. The second
/// component says whether the number is integral (no fraction, no
/// exponent).
pub open spec fn spec_number_end(s: Seq<char>, i: int) -> Option<(int, bool)> {
    let a = if i < s.len() && s[i] == '-' {
        i + 1
    } else {
        i
    };
    if a >= s.len() || !is_digit_char(s[a]) {
        None
    } else {
        let int_end = if s[a] == '0' {
            a + 1
        } else {
            digits_end(s, a)
        };
        let frac_end = if int_end < s.len() && s[int_end] == '.' {
            if int_end + 1 < s.len() && is_digit_char(s[int_end + 1]) {
                digits_end(s, int_end + 1)
            } else {
                -1
            }
        } else {
            int_end
        };
        if frac_end < 0 {
            None
        } else {
            let exp_end = if frac_end < s.len() && (s[frac_end] == 'e' || s[frac_end] == 'E') {
                let b = if frac_end + 1 < s.len() && (s[frac_end + 1] == '+' || s[frac_end + 1]
                    == '-') {
                    frac_end + 2
                } else {
                    frac_end + 1
                };
                if b < s.len() && is_digit_char(s[b]) {
                    digits_end(s, b)
                } else {
                    -1
                }
            } else {
                frac_end
            };
            if exp_end < 0 {
                None
            } else {
                Some((exp_end, exp_end == int_end))
            }
        }
    }
}

/// The parsed number value: an integral literal that fits an `i64` is an
/// integer; everything else is carried as its literal text.
pub open spec fn spec_number_value(s: Seq<char>, i: int, end: int, integral: bool) -> ValueV {
    let text = s.subrange(i, end);
    if integral {
        match spec_parse_i64(text) {
            Some(n) => ValueV::Int(n as int),
            None => ValueV::Float(text),
        }
    } else {
        ValueV::Float(text)
    }
}

/// One parsed JSON value starting at `i` (after white space): the value
/// and the position after it.
pub open spec fn spec_parse_value(s: Seq<char>, i: int) -> Option<(ValueV, int)>
    decreases s.len() - i, 2int,
{
    let w = ws_end(s, i);
    if w >= s.len() || w < i {
        None
    } else {
        let c = s[w];
        if c == 'n' {
            if w + 4 <= s.len() && s.subrange(w, w + 4) == null_chars() {
                Some((ValueV::Null, w + 4))
            } else {
                None
            }
        } else if c == 't' {
            if w + 4 <= s.len() && s.subrange(w, w + 4) == true_chars() {
                Some((ValueV::Bool(true), w + 4))
            } else {
                None
            }
        } else if c == 'f' {
            if w + 5 <= s.len() && s.subrange(w, w + 5) == false_chars() {
                Some((ValueV::Bool(false), w + 5))
            } else {
                None
            }
        } else if c == '"' {
            match spec_parse_string(s, w + 1) {
                None => None,
                Some((t, j)) => Some((ValueV::Text(t), j)),
            }
        } else if c == '-' || is_digit_char(c) {
            match spec_number_end(s, w) {
                None => None,
                Some((end, integral)) => Some((spec_number_value(s, w, end, integral), end)),
            }
        } else if c == '[' {
            let w2 = ws_end(s, w + 1);
            if w2 < s.len() && s[w2] == ']' {
                Some((ValueV::List(Seq::empty()), w2 + 1))
            } else {
                match spec_parse_items(s, w + 1, Seq::empty()) {
                    None => None,
                    Some((xs, j)) => Some((ValueV::List(xs), j)),
                }
            }
        } else if c == '{' {
            let w2 = ws_end(s, w + 1);
            if w2 < s.len() && s[w2] == '}' {
                Some((ValueV::Mapping(Seq::empty()), w2 + 1))
            } else {
                match spec_parse_members(s, w + 1, Seq::empty()) {
                    None => None,
                    Some((es, j)) => Some((ValueV::Mapping(es), j)),
                }
            }
        } else {
            None
        }
    }
}

/// The elements of an array from just after `[` or a comma: the elements
/// collected so far are carried through.
pub open spec fn spec_parse_items(s: Seq<char>, i: int, acc: Seq<ValueV>) -> Option<
    (Seq<ValueV>, int),
>
    decreases s.len() - i, 3int,
{
    if i < 0 || i > s.len() {
        None
    } else {
        match spec_parse_value(s, i) {
            None => None,
            Some((v, j)) => if j <= i || j > s.len() {
                None
            } else {
                let w = ws_end(s, j);
                if w < j {
                    None
                } else if w < s.len() && s[w] == ',' {
                    spec_parse_items(s, w + 1, acc.push(v))
                } else if w < s.len() && s[w] == ']' {
                    Some((acc.push(v), w + 1))
                } else {
                    None
                }
            },
        }
    }
}

/// The members of an object from just after `{` or a comma: the entries
/// collected so far are carried through, a repeated key overwriting in
/// place.
pub open spec fn spec_parse_members(
    s: Seq<char>,
    i: int,
    acc: Seq<(Seq<char>, ValueV)>,
) -> Option<(Seq<(Seq<char>, ValueV)>, int)>
    decreases s.len() - i, 3int,
{
    if i < 0 || i > s.len() {
        None
    } else {
        let w = ws_end(s, i);
        if w >= s.len() || s[w] != '"' {
            None
        } else {
            match spec_parse_string(s, w + 1) {
                None => None,
                Some((k, j)) => {
                    let w2 = ws_end(s, j);
                    if w2 >= s.len() || s[w2] != ':' || j <= i || w2 < j {
                        None
                    } else {
                        match spec_parse_value(s, w2 + 1) {
                            None => None,
                            Some((v, j2)) => if j2 <= w2 || j2 > s.len() {
                                None
                            } else {
                                let acc2 = spec_map_insert(acc, (k, v));
                                let w3 = ws_end(s, j2);
                                if w3 < j2 {
                                    None
                                } else if w3 < s.len() && s[w3] == ',' {
                                    spec_parse_members(s, w3 + 1, acc2)
                                } else if w3 < s.len() && s[w3] == '}' {
                                    Some((acc2, w3 + 1))
                                } else {
                                    None
                                }
                            },
                        }
                    }
                },
            }
        }
    }
}

/// One whole JSON text: a single value with nothing but white space
/// around it.
pub open spec fn spec_parse_json(s: Seq<char>) -> Option<ValueV> {
    match spec_parse_value(s, 0) {
        None => None,
        Some((v, j)) => if ws_end(s, j) == s.len() {
            Some(v)
        } else {
            None
        },
    }
}


proof fn lemma_json_escaped_push(s: Seq<char>, c: char)
    ensures
        json_escaped(s.push(c)) == json_escaped(s) + json_escape_char(c),
    decreases s.len(),
{
    if s.len() == 0 {
        assert(s.push(c)[0] == c);
        assert(s.push(c).skip(1) =~= Seq::<char>::empty());
        assert(json_escaped(s.push(c)) == json_escape_char(c) + json_escaped(Seq::<char>::empty()));
        assert(json_escape_char(c) + json_escaped(Seq::<char>::empty()) =~= json_escape_char(c));
        assert(json_escaped(s) + json_escape_char(c) =~= json_escape_char(c));
    } else {
        assert(s.push(c)[0] == s[0]);
        assert(s.push(c).skip(1) =~= s.skip(1).push(c));
        lemma_json_escaped_push(s.skip(1), c);
        assert(json_escaped(s.push(c)) =~= (json_escaped(s) + json_escape_char(c)));
    }
}

fn hex_char_exec(d: u32) -> (r: char)
    requires
        d < 16,
    ensures
        r == hex_char(d as int),
{
    if d == 0 {
        '0'
    } else if d == 1 {
        '1'
    } else if d == 2 {
        '2'
    } else if d == 3 {
        '3'
    } else if d == 4 {
        '4'
    } else if d == 5 {
        '5'
    } else if d == 6 {
        '6'
    } else if d == 7 {
        '7'
    } else if d == 8 {
        '8'
    } else if d == 9 {
        '9'
    } else if d == 10 {
        'a'
    } else if d == 11 {
        'b'
    } else if d == 12 {
        'c'
    } else if d == 13 {
        'd'
    } else if d == 14 {
        'e'
    } else {
        'f'
    }
}

/// Append the escaped body of a string literal.
fn write_escaped(s: &Vec<char>, out: &mut Vec<char>)
    ensures
        final(out)@ == old(out)@ + json_escaped(s@),
{
    let ghost start = out@;
    let mut i: usize = 0;
    proof {
        assert(json_escaped(s@.take(0)) =~= Seq::<char>::empty());
        assert(start + Seq::<char>::empty() =~= start);
    }
    while i < s.len()
        invariant
            i <= s@.len(),
            out@ == start + json_escaped(s@.take(i as int)),
        decreases s@.len() - i,
    {
        let c = s[i];
        proof {
            assert(s@.take(i + 1int) =~= s@.take(i as int).push(c));
            lemma_json_escaped_push(s@.take(i as int), c);
        }
        if c == '"' {
            out.push('\\');
            out.push('"');
        } else if c == '\\' {
            out.push('\\');
            out.push('\\');
        } else if c == '\n' {
            out.push('\\');
            out.push('n');
        } else if c == '\r' {
            out.push('\\');
            out.push('r');
        } else if c == '\t' {
            out.push('\\');
            out.push('t');
        } else if c == '\u{0008}' {
            out.push('\\');
            out.push('b');
        } else if c == '\u{000C}' {
            out.push('\\');
            out.push('f');
        } else if (c as u32) < 0x20 {
            out.push('\\');
            out.push('u');
            out.push('0');
            out.push('0');
            out.push(hex_char_exec((c as u32) / 16));
            out.push(hex_char_exec((c as u32) % 16));
        } else {
            out.push(c);
        }
        proof {
            assert(out@ =~= start + json_escaped(s@.take(i + 1int)));
        }
        i = i + 1;
    }
    proof {
        assert(s@.take(s@.len() as int) =~= s@);
    }
}

/// Append the pretty encoding of the value at the given indent.
pub fn json_write(v: &Value, ind: &Vec<char>, out: &mut Vec<char>)
    ensures
        final(out)@ == old(out)@ + json_of(v@, ind@),
    decreases *v, 0int,
{
    let ghost start = out@;
    match v {
        Value::Null => {
            out.push('n');
            out.push('u');
            out.push('l');
            out.push('l');
            proof {
                assert(out@ =~= start + null_chars());
            }
        },
        Value::Bool(b) => {
            if *b {
                out.push('t');
                out.push('r');
                out.push('u');
                out.push('e');
                proof {
                    assert(out@ =~= start + true_chars());
                }
            } else {
                out.push('f');
                out.push('a');
                out.push('l');
                out.push('s');
                out.push('e');
                proof {
                    assert(out@ =~= start + false_chars());
                }
            }
        },
        Value::Int(n) => {
            let cs = i64_to_chars(*n);
            push_all(out, &cs);
        },
        Value::Float(t) => {
            let cs = str_to_chars(t.as_str());
            push_all(out, &cs);
        },
        Value::Text(t) => {
            let cs = str_to_chars(t.as_str());
            out.push('"');
            write_escaped(&cs, out);
            out.push('"');
            proof {
                assert(out@ =~= start + json_string(t@));
            }
        },
        Value::List(xs) => {
            proof {
                lemma_list_view_len(xs@);
            }
            if xs.len() == 0 {
                out.push('[');
                out.push(']');
                proof {
                    assert(out@ =~= start + json_of(v@, ind@));
                }
            } else {
                out.push('[');
                out.push('\n');
                let mut ind2 = clone_chars(ind);
                ind2.push(' ');
                ind2.push(' ');
                proof {
                    assert(ind2@ =~= deeper(ind@));
                    assert(decreases_to!(*v => v->List_0));
                }
                write_items(xs, 0, &ind2, out);
                out.push('\n');
                push_all(out, ind);
                out.push(']');
                proof {
                    assert(list_view(xs@).skip(0) =~= list_view(xs@));
                    assert(out@ =~= start + json_of(v@, ind@));
                }
            }
        },
        Value::Mapping(es) => {
            proof {
                lemma_entries_view_len(es@);
            }
            if es.len() == 0 {
                out.push('{');
                out.push('}');
                proof {
                    assert(out@ =~= start + json_of(v@, ind@));
                }
            } else {
                out.push('{');
                out.push('\n');
                let mut ind2 = clone_chars(ind);
                ind2.push(' ');
                ind2.push(' ');
                proof {
                    assert(ind2@ =~= deeper(ind@));
                    assert(decreases_to!(*v => v->Mapping_0));
                }
                write_members(es, 0, &ind2, out);
                out.push('\n');
                push_all(out, ind);
                out.push('}');
                proof {
                    assert(entries_view(es@).skip(0) =~= entries_view(es@));
                    assert(out@ =~= start + json_of(v@, ind@));
                }
            }
        },
    }
}

/// Copy a character list.
fn clone_chars(cs: &Vec<char>) -> (r: Vec<char>)
    ensures
        r@ == cs@,
{
    let mut r: Vec<char> = Vec::new();
    push_all(&mut r, cs);
    proof {
        assert(Seq::<char>::empty() + cs@ =~= cs@);
    }
    r
}

/// Append the encoded elements from position `from` on.
fn write_items(xs: &Vec<Value>, from: usize, ind: &Vec<char>, out: &mut Vec<char>)
    requires
        from < xs@.len(),
    ensures
        final(out)@ == old(out)@ + json_items(list_view(xs@).skip(from as int), ind@),
    decreases *xs, xs@.len() - from,
{
    let ghost start = out@;
    let ghost lv = list_view(xs@);
    proof {
        lemma_list_view_len(xs@);
        lemma_list_view_index(xs@, from as int);
        assert(lv.skip(from as int)[0] == lv[from as int]);
    }
    push_all(out, ind);
    proof {
        assert(decreases_to!(*xs => xs@[from as int]));
    }
    json_write(&xs[from], ind, out);
    if from < xs.len() - 1 {
        out.push(',');
        out.push('\n');
        write_items(xs, from + 1, ind, out);
        proof {
            assert(lv.skip(from as int).skip(1) =~= lv.skip(from + 1int));
            assert(lv.skip(from as int).len() > 1);
            assert(out@ =~= start + json_items(lv.skip(from as int), ind@));
        }
    } else {
        proof {
            assert(lv.skip(from as int).len() == 1);
            assert(out@ =~= start + json_items(lv.skip(from as int), ind@));
        }
    }
}

/// Append the encoded members from position `from` on.
fn write_members(es: &Vec<(String, Value)>, from: usize, ind: &Vec<char>, out: &mut Vec<char>)
    requires
        from < es@.len(),
    ensures
        final(out)@ == old(out)@ + json_members(entries_view(es@).skip(from as int), ind@),
    decreases *es, es@.len() - from,
{
    let ghost start = out@;
    let ghost ev = entries_view(es@);
    proof {
        lemma_entries_view_len(es@);
        lemma_entries_view_index(es@, from as int);
        assert(ev.skip(from as int)[0] == ev[from as int]);
    }
    push_all(out, ind);
    let kcs = str_to_chars(es[from].0.as_str());
    out.push('"');
    write_escaped(&kcs, out);
    out.push('"');
    out.push(':');
    out.push(' ');
    proof {
        assert(decreases_to!(*es => es@[from as int]));
        assert(decreases_to!(es@[from as int] => es@[from as int].1));
    }
    json_write(&es[from].1, ind, out);
    if from < es.len() - 1 {
        out.push(',');
        out.push('\n');
        write_members(es, from + 1, ind, out);
        proof {
            assert(ev.skip(from as int).skip(1) =~= ev.skip(from + 1int));
            assert(ev.skip(from as int).len() > 1);
            assert(out@ =~= start + json_members(ev.skip(from as int), ind@));
        }
    } else {
        proof {
            assert(ev.skip(from as int).len() == 1);
            assert(out@ =~= start + json_members(ev.skip(from as int), ind@));
        }
    }
}

/// The pretty-printed JSON text of a value.
pub fn to_json_pretty(v: &Value) -> (r: String)
    ensures
        r@ == json_of(v@, Seq::<char>::empty()),
{
    let ind: Vec<char> = Vec::new();
    let mut out: Vec<char> = Vec::new();
    json_write(v, &ind, &mut out);
    proof {
        assert(Seq::<char>::empty() + json_of(v@, Seq::<char>::empty()) =~= json_of(
            v@,
            Seq::<char>::empty(),
        ));
    }
    chars_to_string(&out)
}


pub proof fn lemma_ws_end_is(s: Seq<char>, i: int, d: int)
    requires
        0 <= i <= d <= s.len(),
        forall|j: int| i <= j < d ==> is_json_ws(s[j]),
        d == s.len() || !is_json_ws(s[d]),
    ensures
        ws_end(s, i) == d,
    decreases d - i,
{
    if i < d {
        lemma_ws_end_is(s, i + 1, d);
    }
}

pub proof fn lemma_digits_end_is(s: Seq<char>, i: int, d: int)
    requires
        0 <= i <= d <= s.len(),
        forall|j: int| i <= j < d ==> is_digit_char(s[j]),
        d == s.len() || !is_digit_char(s[d]),
    ensures
        digits_end(s, i) == d,
    decreases d - i,
{
    if i < d {
        lemma_digits_end_is(s, i + 1, d);
    }
}

/// Skip JSON white space.
fn ws_skip(cs: &Vec<char>, i: usize) -> (r: usize)
    requires
        i <= cs@.len(),
    ensures
        r == ws_end(cs@, i as int),
        i <= r <= cs@.len(),
{
    let n = cs.len();
    let mut p = i;
    while p < n && (cs[p] == ' ' || cs[p] == '\t' || cs[p] == '\n' || cs[p] == '\r')
        invariant
            i <= p <= n,
            n == cs@.len(),
            forall|j: int| i <= j < p ==> is_json_ws(cs@[j]),
        decreases n - p,
    {
        p = p + 1;
    }
    proof {
        lemma_ws_end_is(cs@, i as int, p as int);
    }
    p
}

/// Skip decimal digits.
fn digits_skip(cs: &Vec<char>, i: usize) -> (r: usize)
    requires
        i <= cs@.len(),
    ensures
        r == digits_end(cs@, i as int),
        i <= r <= cs@.len(),
        i < cs@.len() && is_digit_char(cs@[i as int]) ==> r > i,
{
    let n = cs.len();
    let mut p = i;
    while p < n && '0' <= cs[p] && cs[p] <= '9'
        invariant
            i <= p <= n,
            n == cs@.len(),
            forall|j: int| i <= j < p ==> is_digit_char(cs@[j]),
        decreases n - p,
    {
        p = p + 1;
    }
    proof {
        lemma_digits_end_is(cs@, i as int, p as int);
    }
    p
}

fn hex_val_exec(c: char) -> (r: u32)
    ensures
        r as int == hex_val(c),
{
    if '0' <= c && c <= '9' {
        c as u32 - '0' as u32
    } else if 'a' <= c && c <= 'f' {
        10 + c as u32 - 'a' as u32
    } else if 'A' <= c && c <= 'F' {
        10 + c as u32 - 'A' as u32
    } else {
        16
    }
}

/// Read four hexadecimal digits as a code unit.
fn parse_hex4_exec(cs: &Vec<char>, i: usize) -> (r: Option<u32>)
    requires
        i <= cs@.len(),
    ensures
        match r {
            Some(h) => spec_parse_hex4(cs@, i as int) == Some(h as int) && h <= 0xFFFF,
            None => spec_parse_hex4(cs@, i as int) is None,
        },
{
    if cs.len() - i < 4 {
        return None;
    }
    let a = hex_val_exec(cs[i]);
    let b = hex_val_exec(cs[i + 1]);
    let c = hex_val_exec(cs[i + 2]);
    let d = hex_val_exec(cs[i + 3]);
    if a < 16 && b < 16 && c < 16 && d < 16 {
        Some(a * 4096 + b * 256 + c * 16 + d)
    } else {
        None
    }
}

/// Relies on char::from_u32: the unique character with this code point,
/// for every code point that is not a surrogate and lies in the Unicode
/// range.
#[verifier::external_body]
fn char_from_code(x: u32) -> (r: Option<char>)
    ensures
        r is Some <==> valid_code(x as int),
        match r {
            Some(c) => c as int == x as int && c == char_of_code(x as int),
            None => true,
        },
{
    char::from_u32(x)
}

/// One parsed escape after a backslash.
fn parse_escape_exec(cs: &Vec<char>, i: usize) -> (r: Option<(char, usize)>)
    requires
        i <= cs@.len(),
    ensures
        match r {
            Some(p) => spec_parse_escape(cs@, i as int) == Some((p.0, p.1 as int)) && i < p.1
                <= cs@.len(),
            None => spec_parse_escape(cs@, i as int) is None,
        },
{
    if i >= cs.len() {
        return None;
    }
    let c = cs[i];
    if c == '"' {
        Some(('"', i + 1))
    } else if c == '\\' {
        Some(('\\', i + 1))
    } else if c == '/' {
        Some(('/', i + 1))
    } else if c == 'n' {
        Some(('\n', i + 1))
    } else if c == 'r' {
        Some(('\r', i + 1))
    } else if c == 't' {
        Some(('\t', i + 1))
    } else if c == 'b' {
        Some(('\u{0008}', i + 1))
    } else if c == 'f' {
        Some(('\u{000C}', i + 1))
    } else if c == 'u' {
        match parse_hex4_exec(cs, i + 1) {
            None => None,
            Some(h) => {
                if 0xD800 <= h && h < 0xDC00 {
                    if cs.len() - i >= 11 && cs[i + 5] == '\\' && cs[i + 6] == 'u' {
                        match parse_hex4_exec(cs, i + 7) {
                            None => None,
                            Some(l) => {
                                if 0xDC00 <= l && l < 0xE000 {
                                    let code: u32 = 0x10000 + (h - 0xD800) * 0x400 + (l - 0xDC00);
                                    proof {
                                        assert(valid_code(code as int));
                                    }
                                    match char_from_code(code) {
                                        Some(ch) => Some((ch, i + 11)),
                                        None => {
                                            proof {
                                                assert(false);
                                            }
                                            None
                                        },
                                    }
                                } else {
                                    None
                                }
                            },
                        }
                    } else {
                        None
                    }
                } else if 0xDC00 <= h && h < 0xE000 {
                    None
                } else {
                    proof {
                        assert(valid_code(h as int));
                    }
                    match char_from_code(h) {
                        Some(ch) => Some((ch, i + 5)),
                        None => {
                            proof {
                                assert(false);
                            }
                            None
                        },
                    }
                }
            },
        }
    } else {
        None
    }
}

/// The body of a string literal from just after the opening quote.
fn parse_string_exec(cs: &Vec<char>, i: usize) -> (r: Option<(Vec<char>, usize)>)
    requires
        i <= cs@.len(),
    ensures
        match r {
            Some(p) => spec_parse_string(cs@, i as int) == Some((p.0@, p.1 as int)) && i < p.1
                <= cs@.len(),
            None => spec_parse_string(cs@, i as int) is None,
        },
    decreases cs@.len() - i,
{
    if i >= cs.len() {
        return None;
    }
    let c = cs[i];
    if c == '"' {
        let empty: Vec<char> = Vec::new();
        proof {
            assert(empty@ =~= Seq::<char>::empty());
        }
        Some((empty, i + 1))
    } else if c == '\\' {
        match parse_escape_exec(cs, i + 1) {
            None => None,
            Some((e, j)) => {
                if j <= i + 1 || j > cs.len() {
                    return None;
                }
                match parse_string_exec(cs, j) {
                    None => None,
                    Some((mut rest, k)) => {
                        rest.insert(0, e);
                        proof {
                            assert(rest@ =~= seq![e] + old_rest_view(rest@));
                        }
                        Some((rest, k))
                    },
                }
            },
        }
    } else if (c as u32) < 0x20 {
        None
    } else {
        match parse_string_exec(cs, i + 1) {
            None => None,
            Some((mut rest, k)) => {
                rest.insert(0, c);
                Some((rest, k))
            },
        }
    }
}

/// The tail of a just-extended character list.
pub open spec fn old_rest_view(s: Seq<char>) -> Seq<char> {
    s.skip(1)
}

/// The extent of a number starting at `i`, and whether it is integral.
fn parse_number_exec(cs: &Vec<char>, i: usize) -> (r: Option<(usize, bool)>)
    requires
        i < cs@.len(),
    ensures
        match r {
            Some(p) => spec_number_end(cs@, i as int) == Some((p.0 as int, p.1)) && i < p.0
                <= cs@.len(),
            None => spec_number_end(cs@, i as int) is None,
        },
{
    let n = cs.len();
    let a = if cs[i] == '-' {
        i + 1
    } else {
        i
    };
    if a >= n || !('0' <= cs[a] && cs[a] <= '9') {
        return None;
    }
    let int_end = if cs[a] == '0' {
        a + 1
    } else {
        digits_skip(cs, a)
    };
    let frac_end = if int_end < n && cs[int_end] == '.' {
        if int_end + 1 < n && '0' <= cs[int_end + 1] && cs[int_end + 1] <= '9' {
            digits_skip(cs, int_end + 1)
        } else {
            return None;
        }
    } else {
        int_end
    };
    let exp_end = if frac_end < n && (cs[frac_end] == 'e' || cs[frac_end] == 'E') {
        let b = if frac_end + 1 < n && (cs[frac_end + 1] == '+' || cs[frac_end + 1] == '-') {
            frac_end + 2
        } else {
            frac_end + 1
        };
        if b < n && '0' <= cs[b] && cs[b] <= '9' {
            digits_skip(cs, b)
        } else {
            return None;
        }
    } else {
        frac_end
    };
    Some((exp_end, exp_end == int_end))
}

/// One parsed JSON value starting at or after `i`.
pub fn parse_value_exec(cs: &Vec<char>, i: usize) -> (r: Option<(Value, usize)>)
    requires
        i <= cs@.len(),
    ensures
        match r {
            Some(p) => spec_parse_value(cs@, i as int) == Some((p.0@, p.1 as int)) && i < p.1
                <= cs@.len(),
            None => spec_parse_value(cs@, i as int) is None,
        },
    decreases cs@.len() - i, 2int,
{
    proof {
        reveal_strlit("null");
        reveal_strlit("true");
        reveal_strlit("false");
        assert("null"@ =~= null_chars());
        assert("true"@ =~= true_chars());
        assert("false"@ =~= false_chars());
    }
    let n = cs.len();
    let w = ws_skip(cs, i);
    if w >= n {
        return None;
    }
    let c = cs[w];
    if c == 'n' {
        if n - w >= 4 && chars_eq_str(cs, w, w + 4, "null") {
            Some((Value::Null, w + 4))
        } else {
            None
        }
    } else if c == 't' {
        if n - w >= 4 && chars_eq_str(cs, w, w + 4, "true") {
            Some((Value::Bool(true), w + 4))
        } else {
            None
        }
    } else if c == 'f' {
        if n - w >= 5 && chars_eq_str(cs, w, w + 5, "false") {
            Some((Value::Bool(false), w + 5))
        } else {
            None
        }
    } else if c == '"' {
        match parse_string_exec(cs, w + 1) {
            None => None,
            Some((t, j)) => Some((Value::Text(chars_to_string(&t)), j)),
        }
    } else if c == '-' || ('0' <= c && c <= '9') {
        match parse_number_exec(cs, w) {
            None => None,
            Some((end, integral)) => {
                let text = subvec(cs, w, end);
                if integral {
                    match parse_i64_chars(&text) {
                        Some(v) => Some((Value::Int(v), end)),
                        None => Some((Value::Float(chars_to_string(&text)), end)),
                    }
                } else {
                    Some((Value::Float(chars_to_string(&text)), end))
                }
            },
        }
    } else if c == '[' {
        let w2 = ws_skip(cs, w + 1);
        if w2 < n && cs[w2] == ']' {
            let empty: Vec<Value> = Vec::new();
            proof {
                assert(list_view(empty@) =~= Seq::<ValueV>::empty());
            }
            Some((Value::List(empty), w2 + 1))
        } else {
            match parse_items_exec(cs, w + 1, Vec::new()) {
                None => None,
                Some((xs, j)) => {
                    proof {
                        assert(list_view(Seq::<Value>::empty()) =~= Seq::<ValueV>::empty());
                    }
                    Some((Value::List(xs), j))
                },
            }
        }
    } else if c == '{' {
        let w2 = ws_skip(cs, w + 1);
        if w2 < n && cs[w2] == '}' {
            let empty: Vec<(String, Value)> = Vec::new();
            proof {
                assert(entries_view(empty@) =~= Seq::<(Seq<char>, ValueV)>::empty());
            }
            Some((Value::Mapping(empty), w2 + 1))
        } else {
            match parse_members_exec(cs, w + 1, Vec::new()) {
                None => None,
                Some((es, j)) => {
                    proof {
                        assert(entries_view(Seq::<(String, Value)>::empty()) =~= Seq::<
                            (Seq<char>, ValueV),
                        >::empty());
                    }
                    Some((Value::Mapping(es), j))
                },
            }
        }
    } else {
        None
    }
}

/// The elements of an array from just after `[` or a comma.
fn parse_items_exec(cs: &Vec<char>, i: usize, acc: Vec<Value>) -> (r: Option<(Vec<Value>, usize)>)
    requires
        i <= cs@.len(),
    ensures
        match r {
            Some(p) => spec_parse_items(cs@, i as int, list_view(acc@)) == Some(
                (list_view(p.0@), p.1 as int),
            ) && i < p.1 <= cs@.len(),
            None => spec_parse_items(cs@, i as int, list_view(acc@)) is None,
        },
    decreases cs@.len() - i, 3int,
{
    let n = cs.len();
    match parse_value_exec(cs, i) {
        None => None,
        Some((v, j)) => {
            if j <= i || j > n {
                return None;
            }
            let w = ws_skip(cs, j);
            if w < j {
                return None;
            }
            let ghost oldacc = list_view(acc@);
            let ghost oseq = acc@;
            let mut acc2 = acc;
            acc2.push(v);
            proof {
                assert(acc2@.take(acc2@.len() - 1) =~= oseq);
                lemma_list_view_push_here(acc2@);
                assert(list_view(acc2@) == oldacc.push(value_view(v)));
            }
            if w < n && cs[w] == ',' {
                parse_items_exec(cs, w + 1, acc2)
            } else if w < n && cs[w] == ']' {
                Some((acc2, w + 1))
            } else {
                None
            }
        },
    }
}

/// A list view of one more element.
proof fn lemma_list_view_push_here(s: Seq<Value>)
    requires
        s.len() > 0,
    ensures
        list_view(s) == list_view(s.take(s.len() - 1)).push(value_view(s.last())),
{
    lemma_list_view_len(s);
    lemma_list_view_len(s.take(s.len() - 1));
    assert forall|j: int| 0 <= j < s.len() implies list_view(s)[j] == list_view(
        s.take(s.len() - 1),
    ).push(value_view(s.last()))[j] by {
        lemma_list_view_index(s, j);
        if j < s.len() - 1 {
            lemma_list_view_index(s.take(s.len() - 1), j);
        }
    }
    assert(list_view(s) =~= list_view(s.take(s.len() - 1)).push(value_view(s.last())));
}

/// An entries view of one more entry.
proof fn lemma_entries_view_push_here(s: Seq<(String, Value)>)
    requires
        s.len() > 0,
    ensures
        entries_view(s) == entries_view(s.take(s.len() - 1)).push(
            (s.last().0@, value_view(s.last().1)),
        ),
{
    lemma_entries_view_len(s);
    lemma_entries_view_len(s.take(s.len() - 1));
    assert forall|j: int| 0 <= j < s.len() implies entries_view(s)[j] == entries_view(
        s.take(s.len() - 1),
    ).push((s.last().0@, value_view(s.last().1)))[j] by {
        lemma_entries_view_index(s, j);
        if j < s.len() - 1 {
            lemma_entries_view_index(s.take(s.len() - 1), j);
        }
    }
    assert(entries_view(s) =~= entries_view(s.take(s.len() - 1)).push(
        (s.last().0@, value_view(s.last().1)),
    ));
}

/// The members of an object from just after `{` or a comma.
fn parse_members_exec(cs: &Vec<char>, i: usize, acc: Vec<(String, Value)>) -> (r: Option<
    (Vec<(String, Value)>, usize),
>)
    requires
        i <= cs@.len(),
    ensures
        match r {
            Some(p) => spec_parse_members(cs@, i as int, entries_view(acc@)) == Some(
                (entries_view(p.0@), p.1 as int),
            ) && i < p.1 <= cs@.len(),
            None => spec_parse_members(cs@, i as int, entries_view(acc@)) is None,
        },
    decreases cs@.len() - i, 3int,
{
    let n = cs.len();
    let w = ws_skip(cs, i);
    if w >= n || cs[w] != '"' {
        return None;
    }
    match parse_string_exec(cs, w + 1) {
        None => None,
        Some((k, j)) => {
            let w2 = ws_skip(cs, j);
            if w2 >= n || cs[w2] != ':' || j <= i || w2 < j {
                return None;
            }
            match parse_value_exec(cs, w2 + 1) {
                None => None,
                Some((v, j2)) => {
                    if j2 <= w2 || j2 > n {
                        return None;
                    }
                    let mut acc2 = acc;
                    map_insert(&mut acc2, chars_to_string(&k), v);
                    let w3 = ws_skip(cs, j2);
                    if w3 < j2 {
                        return None;
                    }
                    if w3 < n && cs[w3] == ',' {
                        parse_members_exec(cs, w3 + 1, acc2)
                    } else if w3 < n && cs[w3] == '}' {
                        Some((acc2, w3 + 1))
                    } else {
                        None
                    }
                },
            }
        },
    }
}

/// Parse one whole JSON text: a single value with nothing but white space
/// around it.
pub fn from_json_str(s: &str) -> (r: Option<Value>)
    ensures
        match r {
            Some(v) => spec_parse_json(s@) == Some(v@),
            None => spec_parse_json(s@) is None,
        },
{
    let cs = str_to_chars(s);
    match parse_value_exec(&cs, 0) {
        None => None,
        Some((v, j)) => {
            let w = ws_skip(&cs, j);
            if w == cs.len() {
                Some(v)
            } else {
                None
            }
        },
    }
}

} // verus!

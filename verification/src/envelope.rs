//! The three wire envelopes: Bridge, Handler and Error, as pretty JSON.
//!
//! A Bridge envelope carries a raw console line and context arguments; a
//! Handler envelope carries an ordered list of strings, a pre-rendered
//! text and context arguments; an Error envelope reports one dropped
//! command. Decoding accepts any JSON object with the required fields,
//! ignores unknown fields, and lets a missing `text` default to empty.

use vstd::prelude::*;
use crate::json::{from_json_str, json_of, spec_parse_json, to_json_pretty};
use crate::text::{lemma_strs_view_index, lemma_strs_view_len, strs_view};
use crate::value::{
    entries_view, lemma_entries_view_index, lemma_entries_view_len, lemma_list_view_index,
    lemma_list_view_len, list_view, map_lookup, value_view, Value, ValueV,
};

verus! {

broadcast use vstd::seq::group_seq_axioms, vstd::std_specs::vec::group_vec_axioms;

/// The characters of the field name `text`.
pub open spec fn text_key() -> Seq<char> {
    seq!['t', 'e', 'x', 't']
}

/// The characters of the field name `args`.
pub open spec fn args_key() -> Seq<char> {
    seq!['a', 'r', 'g', 's']
}

/// The characters of the field name `value`.
pub open spec fn value_key() -> Seq<char> {
    seq!['v', 'a', 'l', 'u', 'e']
}

/// The characters of the field name `publish`.
pub open spec fn publish_key() -> Seq<char> {
    seq!['p', 'u', 'b', 'l', 'i', 's', 'h']
}

/// A list of text values.
pub open spec fn texts_of(ss: Seq<Seq<char>>) -> Seq<ValueV> {
    ss.map_values(|t: Seq<char>| ValueV::Text(t))
}

/// A console line with its context, as the bridge publishes it.
pub struct MsgBridge {
    pub text: String,
    pub args: Value,
}

/// The value a Bridge envelope encodes to: a `text` and an `args` member.
pub open spec fn spec_bridge_value(text: Seq<char>, args: ValueV) -> ValueV {
    ValueV::Mapping(seq![(text_key(), ValueV::Text(text)), (args_key(), args)])
}

/// What decoding a Bridge envelope from a JSON text yields: the object's
/// `text` string and its `args` value, both required.
pub open spec fn spec_decode_bridge(s: Seq<char>) -> Option<(Seq<char>, ValueV)> {
    match spec_parse_json(s) {
        None => None,
        Some(v) => match v {
            ValueV::Mapping(es) => match (map_lookup(es, text_key()), map_lookup(es, args_key())) {
                (Some(t), Some(a)) => match t {
                    ValueV::Text(tc) => Some((tc, a)),
                    _ => None,
                },
                _ => None,
            },
            _ => None,
        },
    }
}

impl MsgBridge {
    /// The envelope as pretty JSON.
    pub fn json(&self) -> (r: String)
        ensures
            r@ == json_of(spec_bridge_value(self.text@, self.args@), Seq::<char>::empty()),
    {
        proof {
            reveal_strlit("text");
            reveal_strlit("args");
            assert("text"@ =~= text_key());
            assert("args"@ =~= args_key());
        }
        let mut es: Vec<(String, Value)> = Vec::new();
        es.push(("text".to_owned(), Value::Text(self.text.clone())));
        es.push(("args".to_owned(), self.args.duplicate()));
        proof {
            lemma_entries_view_len(es@);
            lemma_entries_view_index(es@, 0);
            lemma_entries_view_index(es@, 1);
            assert(entries_view(es@) =~= seq![
                (text_key(), ValueV::Text(self.text@)),
                (args_key(), self.args@),
            ]);
        }
        let v = Value::Mapping(es);
        to_json_pretty(&v)
    }

    /// Decode the envelope from a JSON text.
    pub fn from_json(s: &str) -> (r: Option<MsgBridge>)
        ensures
            match r {
                Some(m) => spec_decode_bridge(s@) == Some((m.text@, m.args@)),
                None => spec_decode_bridge(s@) is None,
            },
    {
        proof {
            reveal_strlit("text");
            reveal_strlit("args");
            assert("text"@ =~= text_key());
            assert("args"@ =~= args_key());
        }
        let v = match from_json_str(s) {
            Some(v) => v,
            None => {
                return None;
            },
        };
        let text = match v.get_key("text") {
            Some(t) => match t {
                Value::Text(tc) => tc.clone(),
                _ => {
                    return None;
                },
            },
            None => {
                return None;
            },
        };
        let args = match v.get_key("args") {
            Some(a) => a.duplicate(),
            None => {
                return None;
            },
        };
        Some(MsgBridge { text, args })
    }
}

/// A transformed message: ordered string values, a pre-rendered text and
/// context arguments.
pub struct MsgHandler {
    pub text: String,
    pub value: Vec<String>,
    pub args: Value,
}

/// The value a Handler envelope encodes to: `text`, `value` and `args`
/// members, the values as a list of strings.
pub open spec fn spec_handler_value(
    text: Seq<char>,
    value: Seq<Seq<char>>,
    args: ValueV,
) -> ValueV {
    ValueV::Mapping(
        seq![
            (text_key(), ValueV::Text(text)),
            (value_key(), ValueV::List(texts_of(value))),
            (args_key(), args),
        ],
    )
}

/// The envelope's text field: the object's `text` string, empty when the
/// field is absent, nothing when it is not a string.
pub open spec fn spec_handler_text(es: Seq<(Seq<char>, ValueV)>) -> Option<Seq<char>> {
    match map_lookup(es, text_key()) {
        Some(tv) => match tv {
            ValueV::Text(tc) => Some(tc),
            _ => None,
        },
        None => Some(Seq::empty()),
    }
}

/// The fields of a Handler object: text (defaulting), values (a list of
/// strings) and args, in that order of checks.
pub open spec fn spec_handler_fields(es: Seq<(Seq<char>, ValueV)>) -> Option<
    (Seq<char>, Seq<Seq<char>>, ValueV),
> {
    match spec_handler_text(es) {
        None => None,
        Some(tc) => match map_lookup(es, value_key()) {
            None => None,
            Some(vv) => match vv {
                ValueV::List(xs) => if forall|i: int|
                    0 <= i < xs.len() ==> (#[trigger] xs[i]) is Text {
                    match map_lookup(es, args_key()) {
                        Some(a) => Some((tc, xs.map_values(|x: ValueV| x->Text_0), a)),
                        None => None,
                    }
                } else {
                    None
                },
                _ => None,
            },
        },
    }
}

/// What decoding a Handler envelope yields: the object's `value` list of
/// strings and its `args`, both required; a missing `text` is empty.
pub open spec fn spec_decode_handler(s: Seq<char>) -> Option<(Seq<char>, Seq<Seq<char>>, ValueV)> {
    match spec_parse_json(s) {
        None => None,
        Some(v) => match v {
            ValueV::Mapping(es) => spec_handler_fields(es),
            _ => None,
        },
    }
}

impl MsgHandler {
    /// The envelope as pretty JSON, built from the values, the text and
    /// the arguments.
    #[verifier::loop_isolation(false)]
    pub fn get_json(value: Vec<String>, text: String, args: &Value) -> (r: String)
        ensures
            r@ == json_of(
                spec_handler_value(text@, strs_view(value@), args@),
                Seq::<char>::empty(),
            ),
    {
        proof {
            reveal_strlit("text");
            reveal_strlit("args");
            reveal_strlit("value");
            assert("text"@ =~= text_key());
            assert("args"@ =~= args_key());
            assert("value"@ =~= value_key());
        }
        let mut items: Vec<Value> = Vec::new();
        let mut i: usize = 0;
        while i < value.len()
            invariant
                i <= value@.len(),
                items@.len() == i,
                forall|j: int|
                    0 <= j < i ==> value_view(#[trigger] items@[j]) == ValueV::Text(value@[j]@),
            decreases value@.len() - i,
        {
            items.push(Value::Text(value[i].clone()));
            i = i + 1;
        }
        proof {
            lemma_list_view_len(items@);
            lemma_strs_view_len(value@);
            assert forall|j: int| 0 <= j < items@.len() implies list_view(items@)[j] == texts_of(
                strs_view(value@),
            )[j] by {
                lemma_list_view_index(items@, j);
                lemma_strs_view_index(value@, j);
            }
            assert(list_view(items@) =~= texts_of(strs_view(value@)));
        }
        let mut es: Vec<(String, Value)> = Vec::new();
        es.push(("text".to_owned(), Value::Text(text)));
        es.push(("value".to_owned(), Value::List(items)));
        es.push(("args".to_owned(), args.duplicate()));
        proof {
            lemma_entries_view_len(es@);
            lemma_entries_view_index(es@, 0);
            lemma_entries_view_index(es@, 1);
            lemma_entries_view_index(es@, 2);
            assert(entries_view(es@) =~= spec_handler_value(
                text@,
                strs_view(value@),
                args@,
            )->Mapping_0);
        }
        let v = Value::Mapping(es);
        to_json_pretty(&v)
    }

    /// The envelope as pretty JSON.
    pub fn json(&self) -> (r: String)
        ensures
            r@ == json_of(
                spec_handler_value(self.text@, strs_view(self.value@), self.args@),
                Seq::<char>::empty(),
            ),
    {
        let value = crate::tasks::clone_strings(&self.value);
        Self::get_json(value, self.text.clone(), &self.args)
    }

    /// Decode the envelope from a JSON text.
    #[verifier::loop_isolation(false)]
    #[verifier::rlimit(100)]
    pub fn from_json(s: &str) -> (r: Option<MsgHandler>)
        ensures
            match r {
                Some(m) => spec_decode_handler(s@) == Some(
                    (m.text@, strs_view(m.value@), m.args@),
                ),
                None => spec_decode_handler(s@) is None,
            },
    {
        proof {
            reveal_strlit("text");
            reveal_strlit("args");
            reveal_strlit("value");
            assert("text"@ =~= text_key());
            assert("args"@ =~= args_key());
            assert("value"@ =~= value_key());
        }
        let v = match from_json_str(s) {
            Some(v) => v,
            None => {
                return None;
            },
        };
        match v {
            Value::Mapping(_) => {},
            _ => {
                return None;
            },
        }
        let text: String = match v.get_key("text") {
            Some(t) => match t {
                Value::Text(tc) => tc.clone(),
                _ => {
                    return None;
                },
            },
            None => String::new(),
        };
        let value: Vec<String> = match v.get_key("value") {
            Some(lv) => match lv {
                Value::List(xs) => {
                    let mut out: Vec<String> = Vec::new();
                    let mut i: usize = 0;
                    proof {
                        lemma_list_view_len(xs@);
                    }
                    while i < xs.len()
                        invariant
                            i <= xs@.len(),
                            out@.len() == i,
                            forall|j: int| 0 <= j < i ==> (#[trigger] list_view(xs@)[j]) is Text,
                            forall|j: int|
                                0 <= j < i ==> (#[trigger] out@[j])@ == list_view(xs@)[j]->Text_0,
                        decreases xs@.len() - i,
                    {
                        proof {
                            lemma_list_view_index(xs@, i as int);
                        }
                        match &xs[i] {
                            Value::Text(tc) => {
                                out.push(tc.clone());
                            },
                            _ => {
                                proof {
                                    let xv = list_view(xs@);
                                    lemma_list_view_len(xs@);
                                    lemma_list_view_index(xs@, i as int);
                                    assert(!(forall|k: int|
                                        0 <= k < xv.len() ==> (#[trigger] xv[k]) is Text)) by {
                                        assert(!(xv[i as int] is Text));
                                    }
                                }
                                return None;
                            },
                        }
                        i = i + 1;
                    }
                    proof {
                        let xv = list_view(xs@);
                        lemma_strs_view_len(out@);
                        assert forall|j: int| 0 <= j < out@.len() implies strs_view(out@)[j]
                            == xv.map_values(|x: ValueV| x->Text_0)[j] by {
                            lemma_strs_view_index(out@, j);
                        }
                        assert(strs_view(out@) =~= xv.map_values(|x: ValueV| x->Text_0));
                    }
                    out
                },
                _ => {
                    return None;
                },
            },
            None => {
                return None;
            },
        };
        let args = match v.get_key("args") {
            Some(a) => a.duplicate(),
            None => {
                return None;
            },
        };
        Some(MsgHandler { text, value, args })
    }
}

/// A dropped-command report for the errors subject.
pub struct MsgError {
    pub text: String,
    pub publish: String,
}

/// The value an Error envelope encodes to: a `text` and a `publish`
/// member.
pub open spec fn spec_error_value(text: Seq<char>, publish: Seq<char>) -> ValueV {
    ValueV::Mapping(
        seq![(text_key(), ValueV::Text(text)), (publish_key(), ValueV::Text(publish))],
    )
}

impl MsgError {
    /// The envelope as pretty JSON.
    pub fn json(&self) -> (r: String)
        ensures
            r@ == json_of(spec_error_value(self.text@, self.publish@), Seq::<char>::empty()),
    {
        proof {
            reveal_strlit("text");
            reveal_strlit("publish");
            assert("text"@ =~= text_key());
            assert("publish"@ =~= publish_key());
        }
        let mut es: Vec<(String, Value)> = Vec::new();
        es.push(("text".to_owned(), Value::Text(self.text.clone())));
        es.push(("publish".to_owned(), Value::Text(self.publish.clone())));
        proof {
            lemma_entries_view_len(es@);
            lemma_entries_view_index(es@, 0);
            lemma_entries_view_index(es@, 1);
            assert(entries_view(es@) =~= spec_error_value(self.text@, self.publish@)->Mapping_0);
        }
        let v = Value::Mapping(es);
        to_json_pretty(&v)
    }
}

} // verus!

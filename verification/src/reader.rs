//! The bot reader's per-message decision: from a Handler envelope to the
//! text, chat and thread a chat message should be sent with, or nothing
//! when the message is dropped.

use vstd::prelude::*;
use crate::envelope::{spec_decode_handler, MsgHandler};
use crate::rx::{regex_ok, spec_captures, Pattern};
use crate::template::{get_and_format, message_thread_id_key, spec_render};
use crate::text::{lemma_strs_view_index, lemma_strs_view_len, str_to_chars, strs_view};
use crate::textops::captures_to_list;
use crate::textops::get_caps;
use crate::transform::{g_present, lemma_caps_present};
use crate::value::{spec_get_i64, spec_get_string, spec_merge, Args, Value, ValueV};

verus! {

broadcast use vstd::seq::group_seq_axioms, vstd::std_specs::vec::group_vec_axioms;

/// The characters of the key `message_text`.
pub open spec fn message_text_key() -> Seq<char> {
    seq!['m', 'e', 's', 's', 'a', 'g', 'e', '_', 't', 'e', 'x', 't']
}

/// The characters of the key `message_regex`.
pub open spec fn message_regex_key() -> Seq<char> {
    seq!['m', 'e', 's', 's', 'a', 'g', 'e', '_', 'r', 'e', 'g', 'e', 'x']
}

/// The characters of the key `not_starts_with`.
pub open spec fn not_starts_with_key() -> Seq<char> {
    seq!['n', 'o', 't', '_', 's', 't', 'a', 'r', 't', 's', '_', 'w', 'i', 't', 'h']
}

/// The characters of the key `chat_id`.
pub open spec fn chat_id_key() -> Seq<char> {
    seq!['c', 'h', 'a', 't', '_', 'i', 'd']
}

/// The default message template: the first two positional values,
/// separated by a colon.
pub open spec fn default_message_text() -> Seq<char> {
    seq!['{', '{', '0', '}', '}', ':', ' ', '{', '{', '1', '}', '}']
}

/// Strings joined by single spaces.
pub open spec fn spec_joined(ss: Seq<Seq<char>>) -> Seq<char>
    decreases ss.len(),
{
    if ss.len() == 0 {
        Seq::empty()
    } else if ss.len() == 1 {
        ss[0]
    } else {
        ss[0] + seq![' '] + spec_joined(ss.skip(1))
    }
}

/// Whether `p` is a prefix of `s`.
pub open spec fn spec_starts_with(s: Seq<char>, p: Seq<char>) -> bool {
    p.len() <= s.len() && s.take(p.len() as int) == p
}

/// The delivered text after the optional post-processing regex: with no
/// regex the rendered text stands; an invalid regex drops the message; a
/// matching regex with a non-empty whole match joins the matched groups
/// after it with spaces; anything else keeps the rendered text.
pub open spec fn spec_reader_text(mr: Seq<char>, rendered: Seq<char>) -> Option<Seq<char>> {
    if mr.len() == 0 {
        Some(rendered)
    } else if !regex_ok(mr) {
        None
    } else {
        match spec_captures(mr, rendered) {
            None => Some(rendered),
            Some(gs) => {
                let full = if gs.len() >= 1 {
                    match gs[0] {
                        Some(f) => f,
                        None => Seq::<char>::empty(),
                    }
                } else {
                    Seq::<char>::empty()
                };
                if full.len() == 0 {
                    Some(rendered)
                } else {
                    Some(spec_joined(g_present(gs.skip(1))))
                }
            },
        }
    }
}

/// A thread id within the signed 32-bit range, or the absent marker.
pub open spec fn spec_thread_clamp(t: int) -> int {
    if i32::MIN <= t <= i32::MAX {
        t
    } else {
        -1
    }
}

/// What the reader decides for one inbound payload: the text to send and
/// the chat and thread to send it to, or nothing when the payload does
/// not decode, its regex is invalid, or the text falls under the
/// `not_starts_with` filter. The effective arguments are the message's
/// merged over the configured ones, so that on a shared key the message
/// wins.
pub open spec fn spec_reader(payload: Seq<char>, args: ValueV) -> Option<(Seq<char>, int, int)> {
    match spec_decode_handler(payload) {
        None => None,
        Some((_t, vals, margs)) => {
            let ea = spec_merge(args, margs);
            let mt = spec_get_string(ea, message_text_key(), default_message_text());
            let mr = spec_get_string(ea, message_regex_key(), Seq::empty());
            let rendered = spec_render(mt, ea, vals);
            match spec_reader_text(mr, rendered) {
                None => None,
                Some(text) => {
                    let nsw = spec_get_string(ea, not_starts_with_key(), Seq::empty());
                    if nsw.len() > 0 && spec_starts_with(text, nsw) {
                        None
                    } else {
                        Some(
                            (
                                text,
                                spec_get_i64(ea, chat_id_key(), (-1) as i64) as int,
                                spec_thread_clamp(
                                    spec_get_i64(ea, message_thread_id_key(), (-1) as i64) as int,
                                ),
                            ),
                        )
                    }
                },
            }
        },
    }
}

/// One message the reader hands to the chat bot.
pub struct ReaderDecision {
    pub text: String,
    pub chat_id: i64,
    pub thread_id: i64,
}

/// Join the strings from `from` on with single spaces.
pub fn join_space(list: &Vec<String>, from: usize) -> (r: String)
    requires
        from <= list@.len(),
    ensures
        r@ == spec_joined(strs_view(list@).skip(from as int)),
    decreases list@.len() - from,
{
    proof {
        lemma_strs_view_len(list@);
    }
    let ghost lv = strs_view(list@);
    if from == list.len() {
        proof {
            assert(lv.skip(from as int) =~= Seq::<Seq<char>>::empty());
        }
        String::new()
    } else if from == list.len() - 1 {
        proof {
            lemma_strs_view_index(list@, from as int);
            assert(lv.skip(from as int)[0] == lv[from as int]);
            assert(lv.skip(from as int).len() == 1);
        }
        list[from].clone()
    } else {
        let rest = join_space(list, from + 1);
        let mut s = list[from].clone();
        s.append(" ");
        s.append(rest.as_str());
        proof {
            reveal_strlit(" ");
            assert(" "@ =~= seq![' ']);
            lemma_strs_view_index(list@, from as int);
            assert(lv.skip(from as int)[0] == lv[from as int]);
            assert(lv.skip(from as int).skip(1) =~= lv.skip(from + 1int));
            assert(lv.skip(from as int).len() > 1);
        }
        s
    }
}

/// Whether the text starts with the prefix.
fn starts_with_str(s: &str, p: &str) -> (r: bool)
    ensures
        r == spec_starts_with(s@, p@),
{
    let sc = str_to_chars(s);
    let pc = str_to_chars(p);
    if pc.len() > sc.len() {
        return false;
    }
    let mut i: usize = 0;
    while i < pc.len()
        invariant
            i <= pc@.len() <= sc@.len(),
            sc@ == s@,
            pc@ == p@,
            forall|j: int| 0 <= j < i ==> sc@[j] == pc@[j],
        decreases pc@.len() - i,
    {
        if sc[i] != pc[i] {
            proof {
                assert(s@.take(p@.len() as int)[i as int] == s@[i as int]);
            }
            return false;
        }
        i = i + 1;
    }
    proof {
        assert(s@.take(p@.len() as int) =~= p@);
    }
    true
}

/// Decide one inbound payload: decode it, merge its arguments over the
/// configured ones, render the message template with the envelope's
/// values, post-process through the optional regex, and apply the
/// `not_starts_with` filter; what remains is the chat message to send.
#[verifier::loop_isolation(false)]
pub fn reader_decision(payload: &str, args: &Value) -> (r: Option<ReaderDecision>)
    ensures
        match r {
            Some(d) => spec_reader(payload@, args@) == Some(
                (d.text@, d.chat_id as int, d.thread_id as int),
            ),
            None => spec_reader(payload@, args@) is None,
        },
{
    proof {
        reveal_strlit("message_text");
        reveal_strlit("message_regex");
        reveal_strlit("not_starts_with");
        reveal_strlit("chat_id");
        reveal_strlit("message_thread_id");
        reveal_strlit("{{0}}: {{1}}");
        assert("message_text"@ =~= message_text_key());
        assert("message_regex"@ =~= message_regex_key());
        assert("not_starts_with"@ =~= not_starts_with_key());
        assert("chat_id"@ =~= chat_id_key());
        assert("message_thread_id"@ =~= message_thread_id_key());
        assert("{{0}}: {{1}}"@ =~= default_message_text());
    }
    let msg = match MsgHandler::from_json(payload) {
        Some(m) => m,
        None => {
            return None;
        },
    };
    let ea = Args::merge_yaml_values(args, &msg.args);
    let mt = Args::get_string(&ea, "message_text", "{{0}}: {{1}}".to_owned());
    let mr = Args::get_string(&ea, "message_regex", String::new());
    let rendered = get_and_format(mt.as_str(), &ea, &msg.value);
    let text: String = if mr.as_str().is_empty() {
        rendered
    } else {
        let re = match Pattern::compile(mr.as_str()) {
            Some(re) => re,
            None => {
                return None;
            },
        };
        match re.captures(rendered.as_str()) {
            None => rendered,
            Some(caps) => {
                let full = get_caps(&caps, 0);
                if full.as_str().is_empty() {
                    rendered
                } else {
                    let pres = captures_to_list(&caps);
                    proof {
                        lemma_caps_present(caps@);
                        crate::rx::lemma_opts_view_len(caps@);
                        crate::rx::lemma_opts_view_index(caps@, 0);
                        let gs = crate::rx::opts_view(caps@);
                        assert(g_present(gs)[0] == caps@[0]->0@);
                        assert(g_present(gs).skip(1) =~= g_present(gs.skip(1)));
                        assert(strs_view(pres@).skip(1) =~= g_present(gs.skip(1)));
                        lemma_strs_view_len(pres@);
                    }
                    join_space(&pres, 1)
                }
            },
        }
    };
    let nsw = Args::get_string(&ea, "not_starts_with", String::new());
    if !nsw.as_str().is_empty() && starts_with_str(text.as_str(), nsw.as_str()) {
        return None;
    }
    let chat_id = Args::get_i64(&ea, "chat_id", -1);
    let tid = Args::get_i64(&ea, "message_thread_id", -1);
    let thread_id: i64 = if (i32::MIN as i64) <= tid && tid <= (i32::MAX as i64) {
        tid
    } else {
        -1
    };
    Some(ReaderDecision { text, chat_id, thread_id })
}

} // verus!

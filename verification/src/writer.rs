//! The bot writer's computation: from one chat update to the Handler
//! envelopes published on the bus.
//!
//! Each format step renders its template with three positional values -
//! the original payload, the previous step's output and the auxiliary
//! text - and optionally escapes the result. The update's arguments are
//! merged over the configured ones and the synthesised context fields
//! are injected before subjects are expanded.

use vstd::prelude::*;
use crate::emoji::{spec_substitute, EmojiCollection};
use crate::envelope::{spec_handler_value, MsgHandler};
use crate::json::json_of;
use crate::template::{get_and_format, message_thread_id_key, server_name_key, spec_render};
use crate::text::{lemma_strs_view_index, lemma_strs_view_len, strs_view};
use crate::textops::{
    escape_string, normalize_truncate_in_place, pairs_view, spec_escape, spec_normalize_truncate,
};
use crate::value::{
    map_insert, spec_map_insert, spec_merge, entries_view, Args, Value, ValueV,
};

verus! {

broadcast use vstd::seq::group_seq_axioms, vstd::std_specs::vec::group_vec_axioms;

/// One format step: a template and whether its output is escaped.
pub struct FormatConfig {
    pub format: String,
    pub escape: bool,
}

/// The writer's format rules, one list per media kind.
pub struct FormatsConfigs {
    pub text: Vec<FormatConfig>,
    pub reply: Vec<FormatConfig>,
    pub media: String,
    pub sticker: String,
}

/// The templates and escape flags of a format step list.
pub open spec fn fcs_view(s: Seq<FormatConfig>) -> Seq<(Seq<char>, bool)>
    decreases s,
{
    if s.len() == 0 {
        Seq::empty()
    } else {
        seq![(s[0].format@, s[0].escape)] + fcs_view(s.skip(1))
    }
}

pub proof fn lemma_fcs_view_len(s: Seq<FormatConfig>)
    ensures
        fcs_view(s).len() == s.len(),
    decreases s,
{
    if s.len() > 0 {
        lemma_fcs_view_len(s.skip(1));
    }
}

pub proof fn lemma_fcs_view_index(s: Seq<FormatConfig>, i: int)
    requires
        0 <= i < s.len(),
    ensures
        fcs_view(s)[i] == (s[i].format@, s[i].escape),
    decreases s,
{
    lemma_fcs_view_len(s);
    if i > 0 {
        lemma_fcs_view_index(s.skip(1), i - 1);
    }
}

/// The chain of format steps: each step renders its template with the
/// original payload, the previous output and the auxiliary text as the
/// positional values, escaping where asked; the last output stands.
pub open spec fn spec_formats(
    fcs: Seq<(Seq<char>, bool)>,
    args: ValueV,
    text: Seq<char>,
    add: Seq<char>,
    acc: Seq<char>,
) -> Seq<char>
    decreases fcs.len(),
{
    if fcs.len() == 0 {
        acc
    } else {
        let rendered = spec_render(fcs[0].0, args, seq![text, acc, add]);
        let acc2 = if fcs[0].1 {
            spec_escape(rendered)
        } else {
            rendered
        };
        spec_formats(fcs.skip(1), args, text, add, acc2)
    }
}

/// Run the format steps over the payload text, starting from an empty
/// intermediate output.
#[verifier::loop_isolation(false)]
pub fn formats(steps: Vec<FormatConfig>, args: &Value, text: String, additional_text: String) -> (
    r: String)
    ensures
        r@ == spec_formats(
            fcs_view(steps@),
            args@,
            text@,
            additional_text@,
            Seq::<char>::empty(),
        ),
{
    let ghost fv = fcs_view(steps@);
    proof {
        lemma_fcs_view_len(steps@);
        assert(fv.skip(0) =~= fv);
    }
    let mut ft = String::new();
    let mut i: usize = 0;
    while i < steps.len()
        invariant
            i <= steps@.len(),
            spec_formats(fv, args@, text@, additional_text@, Seq::<char>::empty())
                == spec_formats(fv.skip(i as int), args@, text@, additional_text@, ft@),
        decreases steps@.len() - i,
    {
        proof {
            lemma_fcs_view_index(steps@, i as int);
            assert(fv.skip(i as int)[0] == fv[i as int]);
            assert(fv.skip(i as int).skip(1) =~= fv.skip(i + 1int));
        }
        let mut lv: Vec<String> = Vec::new();
        lv.push(text.clone());
        lv.push(ft.clone());
        lv.push(additional_text.clone());
        proof {
            lemma_strs_view_len(lv@);
            lemma_strs_view_index(lv@, 0);
            lemma_strs_view_index(lv@, 1);
            lemma_strs_view_index(lv@, 2);
            assert(strs_view(lv@) =~= seq![text@, ft@, additional_text@]);
        }
        let temp = get_and_format(steps[i].format.as_str(), args, &lv);
        if steps[i].escape {
            ft = escape_string(temp);
        } else {
            ft = temp;
        }
        i = i + 1;
    }
    proof {
        assert(fv.skip(fv.len() as int) =~= Seq::<(Seq<char>, bool)>::empty());
    }
    ft
}

/// What one chat update carries for formatting: a sticker's emoji, a
/// media group's identity, or plain text.
pub enum ChatContent {
    Sticker { emoji: String },
    Media { group_id: String },
    Plain { text: String },
}

/// The formatted text of one update: a sticker formats its emoji with
/// the sticker marker as auxiliary text, a media group its identity with
/// the media marker, and plain text is normalised and truncated to 500
/// characters before formatting with no auxiliary text.
pub open spec fn spec_msg_format(
    content: ChatContent,
    args: ValueV,
    fcs: Seq<(Seq<char>, bool)>,
    media: Seq<char>,
    sticker: Seq<char>,
) -> Seq<char> {
    match content {
        ChatContent::Sticker { emoji } => spec_formats(
            fcs,
            args,
            emoji@,
            sticker,
            Seq::<char>::empty(),
        ),
        ChatContent::Media { group_id } => spec_formats(
            fcs,
            args,
            group_id@,
            media,
            Seq::<char>::empty(),
        ),
        ChatContent::Plain { text } => spec_formats(
            fcs,
            args,
            spec_normalize_truncate(text@, 500),
            Seq::<char>::empty(),
            Seq::<char>::empty(),
        ),
    }
}

/// Format one update's content through the right rule list: the reply
/// list for a quoted message, the text list otherwise.
pub fn msg_format(content: ChatContent, args: &Value, fr: &FormatsConfigs, reply: bool) -> (
    r: String)
    ensures
        r@ == spec_msg_format(
            content,
            args@,
            fcs_view(if reply {
                fr.reply@
            } else {
                fr.text@
            }),
            fr.media@,
            fr.sticker@,
        ),
{
    let list = if reply {
        clone_format_list(&fr.reply)
    } else {
        clone_format_list(&fr.text)
    };
    match content {
        ChatContent::Sticker { emoji } => formats(list, args, emoji, fr.sticker.clone()),
        ChatContent::Media { group_id } => formats(list, args, group_id, fr.media.clone()),
        ChatContent::Plain { text } => {
            let mut t = text;
            let cut = normalize_truncate_in_place(&mut t, 500);
            formats(list, args, cut, String::new())
        },
    }
}

/// Copy a format step list, preserving templates and flags.
fn clone_format_list(list: &Vec<FormatConfig>) -> (r: Vec<FormatConfig>)
    ensures
        fcs_view(r@) == fcs_view(list@),
{
    let mut r: Vec<FormatConfig> = Vec::new();
    let mut i: usize = 0;
    while i < list.len()
        invariant
            i <= list@.len(),
            r@.len() == i,
            forall|j: int|
                0 <= j < i ==> (#[trigger] r@[j]).format@ == list@[j].format@ && r@[j].escape
                    == list@[j].escape,
        decreases list@.len() - i,
    {
        r.push(FormatConfig { format: list[i].format.clone(), escape: list[i].escape });
        i = i + 1;
    }
    proof {
        lemma_fcs_view_len(r@);
        lemma_fcs_view_len(list@);
        assert forall|j: int| 0 <= j < list@.len() implies fcs_view(r@)[j] == fcs_view(
            list@,
        )[j] by {
            lemma_fcs_view_index(r@, j);
            lemma_fcs_view_index(list@, j);
        }
        assert(fcs_view(r@) =~= fcs_view(list@));
    }
    r
}

/// The characters of the key `chat_id`.
pub open spec fn writer_chat_id_key() -> Seq<char> {
    seq!['c', 'h', 'a', 't', '_', 'i', 'd']
}

/// The characters of the key `econ_divide`.
pub open spec fn econ_divide_key() -> Seq<char> {
    seq!['e', 'c', 'o', 'n', '_', 'd', 'i', 'v', 'i', 'd', 'e']
}

/// The writer's effective arguments: the update's value merged over the
/// configured arguments, then the thread id (as text), the topic name,
/// the chat id and the split marker written in.
pub open spec fn spec_writer_args(
    update: ValueV,
    cfg_args: ValueV,
    thread_id_text: Seq<char>,
    topic_name: Seq<char>,
    chat_id: int,
) -> ValueV {
    let base = spec_merge(update, cfg_args);
    let es = match base {
        ValueV::Mapping(es) => es,
        _ => Seq::<(Seq<char>, ValueV)>::empty(),
    };
    ValueV::Mapping(
        spec_map_insert(
            spec_map_insert(
                spec_map_insert(
                    spec_map_insert(es, (message_thread_id_key(), ValueV::Text(thread_id_text))),
                    (server_name_key(), ValueV::Text(topic_name)),
                ),
                (writer_chat_id_key(), ValueV::Int(chat_id)),
            ),
            (econ_divide_key(), ValueV::Bool(true)),
        ),
    )
}

/// Build the writer's effective arguments for one update.
pub fn writer_args(
    update: &Value,
    cfg_args: &Value,
    thread_id_text: String,
    topic_name: String,
    chat_id: i64,
) -> (r: Value)
    ensures
        r@ == spec_writer_args(update@, cfg_args@, thread_id_text@, topic_name@, chat_id as int),
{
    proof {
        reveal_strlit("message_thread_id");
        reveal_strlit("server_name");
        reveal_strlit("chat_id");
        reveal_strlit("econ_divide");
        assert("message_thread_id"@ =~= message_thread_id_key());
        assert("server_name"@ =~= server_name_key());
        assert("chat_id"@ =~= writer_chat_id_key());
        assert("econ_divide"@ =~= econ_divide_key());
    }
    let base = Args::merge_yaml_values(update, cfg_args);
    let mut es: Vec<(String, Value)> = match base {
        Value::Mapping(entries) => entries,
        _ => Vec::new(),
    };
    proof {
        if spec_merge(update@, cfg_args@) is Mapping {
            assert(entries_view(es@) == spec_merge(update@, cfg_args@)->Mapping_0);
        } else {
            assert(entries_view(es@) =~= Seq::<(Seq<char>, ValueV)>::empty());
        }
    }
    map_insert(&mut es, "message_thread_id".to_owned(), Value::Text(thread_id_text));
    map_insert(&mut es, "server_name".to_owned(), Value::Text(topic_name));
    map_insert(&mut es, "chat_id".to_owned(), Value::Int(chat_id));
    map_insert(&mut es, "econ_divide".to_owned(), Value::Bool(true));
    Value::Mapping(es)
}

/// The texts one update publishes: the formatted reply first when there
/// is a quoted message, then the update's own content, each with the
/// emoji table's symbols replaced by names.
pub open spec fn spec_writer_texts(
    reply: Option<ChatContent>,
    content: ChatContent,
    args: ValueV,
    reply_fcs: Seq<(Seq<char>, bool)>,
    text_fcs: Seq<(Seq<char>, bool)>,
    media: Seq<char>,
    sticker: Seq<char>,
    table: Seq<(Seq<char>, Seq<char>)>,
) -> Seq<Seq<char>> {
    let own = spec_substitute(
        spec_msg_format(content, args, text_fcs, media, sticker),
        table,
        true,
    );
    match reply {
        Some(rc) => seq![
            spec_substitute(spec_msg_format(rc, args, reply_fcs, media, sticker), table, true),
            own,
        ],
        None => seq![own],
    }
}

/// Format one update into its published texts.
pub fn writer_texts(
    reply: Option<ChatContent>,
    content: ChatContent,
    args: &Value,
    fr: &FormatsConfigs,
    emojis: &EmojiCollection,
) -> (r: Vec<String>)
    ensures
        strs_view(r@) == spec_writer_texts(
            reply,
            content,
            args@,
            fcs_view(fr.reply@),
            fcs_view(fr.text@),
            fr.media@,
            fr.sticker@,
            emojis.table(),
        ),
{
    let mut out: Vec<String> = Vec::new();
    match reply {
        Some(rc) => {
            let t = msg_format(rc, args, fr, true);
            out.push(emojis.replace_symbols_with_names(t));
        },
        None => {},
    }
    let own = msg_format(content, args, fr, false);
    out.push(emojis.replace_symbols_with_names(own));
    proof {
        lemma_strs_view_len(out@);
        if out@.len() == 2 {
            lemma_strs_view_index(out@, 0);
            lemma_strs_view_index(out@, 1);
        } else {
            lemma_strs_view_index(out@, 0);
        }
        assert(strs_view(out@) =~= spec_writer_texts(
            reply,
            content,
            args@,
            fcs_view(fr.reply@),
            fcs_view(fr.text@),
            fr.media@,
            fr.sticker@,
            emojis.table(),
        ));
    }
    out
}

/// The envelope and subjects one update publishes: the Handler JSON of
/// the texts with empty text field, addressed to every send path
/// expanded with the effective arguments.
pub fn writer_payloads(
    texts: Vec<String>,
    args: &Value,
    send_paths: &Vec<String>,
) -> (r: Vec<(String, String)>)
    ensures
        ({
            let json = json_of(
                spec_handler_value(Seq::<char>::empty(), strs_view(texts@), args@),
                Seq::<char>::empty(),
            );
            &&& pairs_view(r@).len() == send_paths@.len()
            &&& forall|i: int|
                0 <= i < send_paths@.len() ==> pairs_view(r@)[i] == (
                spec_render(strs_view(send_paths@)[i], args@, Seq::<Seq<char>>::empty()),
                json,
            )
        }),
{
    let ghost json = json_of(
        spec_handler_value(Seq::<char>::empty(), strs_view(texts@), args@),
        Seq::<char>::empty(),
    );
    let data = MsgHandler::get_json(texts, String::new(), args);
    let empty_lv: Vec<String> = Vec::new();
    proof {
        assert(strs_view(empty_lv@) =~= Seq::<Seq<char>>::empty());
        lemma_strs_view_len(send_paths@);
    }
    let mut out: Vec<(String, String)> = Vec::new();
    let mut i: usize = 0;
    while i < send_paths.len()
        invariant
            i <= send_paths@.len(),
            out@.len() == i,
            strs_view(empty_lv@) == Seq::<Seq<char>>::empty(),
            data@ == json,
            forall|j: int|
                0 <= j < i ==> (#[trigger] out@[j]).0@ == spec_render(
                    strs_view(send_paths@)[j],
                    args@,
                    Seq::<Seq<char>>::empty(),
                ) && out@[j].1@ == json,
        decreases send_paths@.len() - i,
    {
        proof {
            lemma_strs_view_index(send_paths@, i as int);
        }
        let subj = get_and_format(send_paths[i].as_str(), args, &empty_lv);
        out.push((subj, data.clone()));
        i = i + 1;
    }
    proof {
        crate::textops::lemma_pairs_view_len(out@);
        assert forall|j: int| 0 <= j < send_paths@.len() implies pairs_view(out@)[j] == (
            spec_render(strs_view(send_paths@)[j], args@, Seq::<Seq<char>>::empty()),
            json,
        ) by {
            crate::textops::lemma_pairs_view_index(out@, j);
        }
    }
    out
}

} // verus!

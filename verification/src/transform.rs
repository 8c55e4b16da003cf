//! The regex transformer: one Bridge envelope in, Handler envelopes out.
//!
//! Every rule whose pattern matches the console line fires: the capture
//! groups become the Handler values, the whole match its text, and the
//! envelope is addressed to every outbound subject template, expanded
//! with the effective arguments and the present capture groups.

use vstd::prelude::*;
use crate::envelope::{spec_decode_bridge, spec_handler_value, MsgBridge, MsgHandler};
use crate::json::json_of;
use crate::rx::{lemma_opts_view_index, lemma_opts_view_len, opts_view, spec_captures, Pattern};
use crate::template::{get_and_format, spec_render};
use crate::text::{lemma_strs_view_index, lemma_strs_view_len, strs_view};
use crate::textops::{captures_to_list, pairs_view, spec_caps_list};
use crate::value::{spec_merge, Args, Value, ValueV};

verus! {

broadcast use vstd::seq::group_seq_axioms, vstd::std_specs::vec::group_vec_axioms;

/// Capture groups with the missing ones as empty strings.
pub open spec fn g_filled(gs: Seq<Option<Seq<char>>>) -> Seq<Seq<char>> {
    gs.map_values(
        |g: Option<Seq<char>>|
            match g {
                Some(t) => t,
                None => Seq::<char>::empty(),
            },
    )
}

/// The capture groups that matched, in order.
pub open spec fn g_present(gs: Seq<Option<Seq<char>>>) -> Seq<Seq<char>>
    decreases gs,
{
    if gs.len() == 0 {
        Seq::empty()
    } else {
        (match gs[0] {
            Some(t) => seq![t],
            None => Seq::<Seq<char>>::empty(),
        }) + g_present(gs.skip(1))
    }
}

/// The filtered captures of a string-backed group list coincide with the
/// present groups of its view.
pub proof fn lemma_caps_present(s: Seq<Option<String>>)
    ensures
        spec_caps_list(s) == g_present(opts_view(s)),
    decreases s,
{
    if s.len() == 0 {
        assert(opts_view(s) =~= Seq::<Option<Seq<char>>>::empty());
        assert(spec_caps_list(s) =~= g_present(opts_view(s)));
    } else {
        lemma_caps_present(s.skip(1));
        assert(opts_view(s)[0] == (match s[0] {
            Some(t) => Some(t@),
            None => None,
        }));
        assert(opts_view(s).skip(1) =~= opts_view(s.skip(1)));
        assert(spec_caps_list(s) =~= g_present(opts_view(s)));
    }
}

/// The Handler JSON a capture set produces: the first group (the whole
/// match) is the text, the remaining groups, missing ones empty, are the
/// values.
pub open spec fn spec_chat_json(gs: Seq<Option<Seq<char>>>, args: ValueV) -> Seq<char> {
    json_of(
        spec_handler_value(g_filled(gs)[0], g_filled(gs).skip(1), args),
        Seq::<char>::empty(),
    )
}

/// Build the Handler envelope for one capture set: group 0 becomes the
/// text, the remaining groups the values, missing groups empty strings.
#[verifier::loop_isolation(false)]
pub fn chat_handler(caps: &Vec<Option<String>>, args: &Value) -> (r: String)
    requires
        caps@.len() >= 1,
    ensures
        r@ == spec_chat_json(opts_view(caps@), args@),
{
    let ghost gs = opts_view(caps@);
    proof {
        lemma_opts_view_len(caps@);
    }
    let mut filled: Vec<String> = Vec::new();
    let mut i: usize = 0;
    while i < caps.len()
        invariant
            i <= caps@.len(),
            filled@.len() == i,
            forall|j: int|
                0 <= j < i ==> (#[trigger] filled@[j])@ == g_filled(gs)[j],
        decreases caps@.len() - i,
    {
        proof {
            lemma_opts_view_index(caps@, i as int);
        }
        match &caps[i] {
            Some(t) => filled.push(t.clone()),
            None => filled.push(String::new()),
        }
        i = i + 1;
    }
    let first = filled[0].clone();
    let mut rest: Vec<String> = Vec::new();
    let mut j: usize = 1;
    while j < filled.len()
        invariant
            1 <= j <= filled@.len(),
            filled@.len() == caps@.len(),
            forall|k: int| 0 <= k < filled@.len() ==> (#[trigger] filled@[k])@ == g_filled(gs)[k],
            rest@.len() == j - 1,
            forall|k: int| 0 <= k < j - 1 ==> (#[trigger] rest@[k])@ == g_filled(gs)[k + 1],
        decreases filled@.len() - j,
    {
        rest.push(filled[j].clone());
        j = j + 1;
    }
    proof {
        lemma_strs_view_len(rest@);
        assert forall|k: int| 0 <= k < rest@.len() implies strs_view(rest@)[k] == g_filled(
            gs,
        ).skip(1)[k] by {
            lemma_strs_view_index(rest@, k);
        }
        assert(strs_view(rest@) =~= g_filled(gs).skip(1));
    }
    MsgHandler::get_json(rest, first, args)
}

/// The (subject, payload) pairs one rule emits for a line: nothing
/// without a match; with a match, one Handler envelope per outbound
/// subject template, expanded with the effective arguments and the
/// present groups.
pub open spec fn spec_transform_one(
    text: Seq<char>,
    ea: ValueV,
    rule: Seq<char>,
    to: Seq<Seq<char>>,
) -> Seq<(Seq<char>, Seq<char>)> {
    match spec_captures(rule, text) {
        None => Seq::empty(),
        Some(gs) => to.map_values(
            |t: Seq<char>| (spec_render(t, ea, g_present(gs)), spec_chat_json(gs, ea)),
        ),
    }
}

/// The pairs the whole rule list emits, in rule order.
pub open spec fn spec_transform_rules(
    text: Seq<char>,
    ea: ValueV,
    rules: Seq<Seq<char>>,
    to: Seq<Seq<char>>,
) -> Seq<(Seq<char>, Seq<char>)>
    decreases rules,
{
    if rules.len() == 0 {
        Seq::empty()
    } else {
        spec_transform_one(text, ea, rules[0], to) + spec_transform_rules(
            text,
            ea,
            rules.skip(1),
            to,
        )
    }
}

/// What one inbound payload produces: nothing when it does not decode as
/// a Bridge envelope; otherwise the rules run over its text against the
/// effective arguments: the message's arguments merged over the
/// configured ones, so that on a shared key the message wins.
pub open spec fn spec_transform(
    payload: Seq<char>,
    rules: Seq<Seq<char>>,
    to: Seq<Seq<char>>,
    args: ValueV,
) -> Seq<(Seq<char>, Seq<char>)> {
    match spec_decode_bridge(payload) {
        None => Seq::empty(),
        Some((text, margs)) => spec_transform_rules(text, spec_merge(args, margs), rules, to),
    }
}

/// The pattern texts of a compiled rule set.
pub open spec fn patterns_view(s: Seq<Pattern>) -> Seq<Seq<char>>
    decreases s,
{
    if s.len() == 0 {
        Seq::empty()
    } else {
        seq![s[0].src_spec()] + patterns_view(s.skip(1))
    }
}

pub proof fn lemma_patterns_view_len(s: Seq<Pattern>)
    ensures
        patterns_view(s).len() == s.len(),
    decreases s,
{
    if s.len() > 0 {
        lemma_patterns_view_len(s.skip(1));
    }
}

pub proof fn lemma_patterns_view_index(s: Seq<Pattern>, i: int)
    requires
        0 <= i < s.len(),
    ensures
        patterns_view(s)[i] == s[i].src_spec(),
    decreases s,
{
    lemma_patterns_view_len(s);
    if i > 0 {
        lemma_patterns_view_index(s.skip(1), i - 1);
    }
}

/// Transform one inbound payload: decode it as a Bridge envelope, merge
/// its arguments over the configured ones (the message's keys win), and
/// emit one (subject, Handler JSON) pair per matching rule and outbound
/// subject template.
#[verifier::loop_isolation(false)]
pub fn transform_message(
    payload: &str,
    rules: &Vec<Pattern>,
    to: &Vec<String>,
    args: &Value,
) -> (r: Vec<(String, String)>)
    ensures
        pairs_view(r@) == spec_transform(
            payload@,
            patterns_view(rules@),
            strs_view(to@),
            args@,
        ),
{
    let ghost rv = patterns_view(rules@);
    let ghost tv = strs_view(to@);
    proof {
        lemma_patterns_view_len(rules@);
        lemma_strs_view_len(to@);
    }
    let msg = match MsgBridge::from_json(payload) {
        Some(m) => m,
        None => {
            let out: Vec<(String, String)> = Vec::new();
            proof {
                assert(pairs_view(out@) =~= spec_transform(payload@, rv, tv, args@));
            }
            return out;
        },
    };
    let ea = Args::merge_yaml_values(args, &msg.args);
    let ghost eav = ea@;
    let ghost text = msg.text@;
    let mut out: Vec<(String, String)> = Vec::new();
    let mut i: usize = 0;
    proof {
        assert(rv.skip(0) =~= rv);
        assert(pairs_view(out@) =~= Seq::<(Seq<char>, Seq<char>)>::empty());
    }
    while i < rules.len()
        invariant
            i <= rules@.len(),
            spec_transform_rules(text, eav, rv, tv) == pairs_view(out@) + spec_transform_rules(
                text,
                eav,
                rv.skip(i as int),
                tv,
            ),
        decreases rules@.len() - i,
    {
        proof {
            lemma_patterns_view_index(rules@, i as int);
            assert(rv.skip(i as int)[0] == rv[i as int]);
            assert(rv.skip(i as int).skip(1) =~= rv.skip(i + 1int));
        }
        let ghost before = pairs_view(out@);
        match rules[i].captures(msg.text.as_str()) {
            None => {
                proof {
                    assert(spec_transform_one(text, eav, rv[i as int], tv) =~= Seq::<
                        (Seq<char>, Seq<char>),
                    >::empty());
                    assert(before + spec_transform_one(text, eav, rv[i as int], tv) =~= before);
                }
            },
            Some(caps) => {
                let ghost gs = opts_view(caps@);
                let json = chat_handler(&caps, &ea);
                let pres = captures_to_list(&caps);
                proof {
                    lemma_caps_present(caps@);
                }
                let mut j: usize = 0;
                proof {
                    assert(tv.map_values(
                        |t: Seq<char>| (spec_render(t, eav, g_present(gs)), spec_chat_json(gs, eav)),
                    ).take(0) =~= Seq::<(Seq<char>, Seq<char>)>::empty());
                    assert(pairs_view(out@) =~= before + tv.map_values(
                        |t: Seq<char>| (spec_render(t, eav, g_present(gs)), spec_chat_json(gs, eav)),
                    ).take(0));
                }
                while j < to.len()
                    invariant
                        j <= to@.len(),
                        tv.len() == to@.len(),
                        pairs_view(out@) == before + tv.map_values(
                            |t: Seq<char>|
                                (spec_render(t, eav, g_present(gs)), spec_chat_json(gs, eav)),
                        ).take(j as int),
                    decreases to@.len() - j,
                {
                    let subj = get_and_format(to[j].as_str(), &ea, &pres);
                    let ghost obefore = out@;
                    out.push((subj, json.clone()));
                    proof {
                        lemma_strs_view_index(to@, j as int);
                        crate::textops::lemma_pairs_view_snoc(out@);
                        assert(out@.take(out@.len() - 1) =~= obefore);
                        let m = tv.map_values(
                            |t: Seq<char>|
                                (spec_render(t, eav, g_present(gs)), spec_chat_json(gs, eav)),
                        );
                        assert(m[j as int] == (spec_render(tv[j as int], eav, g_present(gs)),
                        spec_chat_json(gs, eav)));
                        assert(m.take(j + 1int) =~= m.take(j as int).push(m[j as int]));
                    }
                    j = j + 1;
                }
                proof {
                    let m = tv.map_values(
                        |t: Seq<char>|
                            (spec_render(t, eav, g_present(gs)), spec_chat_json(gs, eav)),
                    );
                    assert(m.take(m.len() as int) =~= m);
                    assert(spec_transform_one(text, eav, rv[i as int], tv) == m);
                }
            },
        }
        proof {
            assert(pairs_view(out@) == before + spec_transform_one(text, eav, rv[i as int], tv));
            assert(pairs_view(out@) + spec_transform_rules(text, eav, rv.skip(i + 1int), tv)
                =~= before + spec_transform_rules(text, eav, rv.skip(i as int), tv));
        }
        i = i + 1;
    }
    proof {
        assert(rv.skip(rv.len() as int) =~= Seq::<Seq<char>>::empty());
        assert(pairs_view(out@) + Seq::<(Seq<char>, Seq<char>)>::empty() =~= pairs_view(out@));
    }
    out
}

} // verus!

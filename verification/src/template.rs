//! The `{{...}}` template engine.
//!
//! A placeholder is `{{KEY}}` where KEY is one or more characters other
//! than `}`. A KEY that parses as a non-negative integer indexes the
//! positional value list; any other KEY is a dot-separated path walked
//! through the argument mapping. Before expansion two convenience fields,
//! `server_name` and `message_thread_id`, are synthesised into a copy of
//! the arguments. A source without `{{` is returned unchanged.

use vstd::prelude::*;
use crate::numtext::{parse_usize_chars, spec_parse_usize};
use crate::text::{
    chars_eq_str, chars_to_string, idx_of_char, lemma_idx_of_char, lemma_idx_of_char_is,
    lemma_strs_view_index, lemma_strs_view_len, push_all, str_to_chars, strs_view, subvec,
};
use crate::value::{
    entries_view, lemma_entries_view_index, lemma_entries_view_len, lemma_lookup_prefix_miss,
    map_has, map_insert, map_lookup, spec_get_i64, spec_get_string, spec_map_insert,
    spec_value_text, Args, Value, ValueV,
};

verus! {

broadcast use vstd::seq::group_seq_axioms, vstd::std_specs::vec::group_vec_axioms;

/// The characters of the key `path_server_name`.
pub open spec fn path_server_name_key() -> Seq<char> {
    seq!['p', 'a', 't', 'h', '_', 's', 'e', 'r', 'v', 'e', 'r', '_', 'n', 'a', 'm', 'e']
}

/// The characters of the key `path_thread_id`.
pub open spec fn path_thread_id_key() -> Seq<char> {
    seq!['p', 'a', 't', 'h', '_', 't', 'h', 'r', 'e', 'a', 'd', '_', 'i', 'd']
}

/// The characters of the key `server_name`.
pub open spec fn server_name_key() -> Seq<char> {
    seq!['s', 'e', 'r', 'v', 'e', 'r', '_', 'n', 'a', 'm', 'e']
}

/// The characters of the key `message_thread_id`.
pub open spec fn message_thread_id_key() -> Seq<char> {
    seq!['m', 'e', 's', 's', 'a', 'g', 'e', '_', 't', 'h', 'r', 'e', 'a', 'd', '_', 'i', 'd']
}

/// The arguments with the two convenience fields synthesised in: the key
/// named by `path_server_name` (default `server_name`) is read as a string
/// into `server_name`, and the key named by `path_thread_id` (default
/// `message_thread_id`) is read as an integer into `message_thread_id`.
/// A non-mapping argument value contributes no other fields.
pub open spec fn spec_synth(args: ValueV) -> ValueV {
    let psn = spec_get_string(args, path_server_name_key(), server_name_key());
    let ptid = spec_get_string(args, path_thread_id_key(), message_thread_id_key());
    let sn = spec_get_string(args, psn, Seq::empty());
    let tid = spec_get_i64(args, ptid, (-1) as i64);
    let base = match args {
        ValueV::Mapping(es) => es,
        _ => Seq::empty(),
    };
    ValueV::Mapping(
        spec_map_insert(
            spec_map_insert(base, (server_name_key(), ValueV::Text(sn))),
            (message_thread_id_key(), ValueV::Int(tid as int)),
        ),
    )
}

/// Walk a dot-separated path through mappings; any missing segment or
/// non-mapping step loses.
pub open spec fn spec_path_get(v: ValueV, key: Seq<char>) -> Option<ValueV>
    decreases key.len(),
    via spec_path_get_decreases
{
    let d = idx_of_char(key, '.');
    let part = key.take(d);
    match v {
        ValueV::Mapping(es) => match map_lookup(es, part) {
            Some(x) => if d == key.len() {
                Some(x)
            } else {
                spec_path_get(x, key.skip(d + 1))
            },
            None => None,
        },
        _ => None,
    }
}

#[via_fn]
proof fn spec_path_get_decreases(v: ValueV, key: Seq<char>) {
    lemma_idx_of_char(key, '.');
}

/// The terminal value's text: a scalar's canonical text, the empty string
/// for anything else.
pub open spec fn spec_stringify(v: ValueV) -> Seq<char> {
    match spec_value_text(v) {
        Some(t) => t,
        None => Seq::empty(),
    }
}

/// What one placeholder key expands to: an integer key indexes the
/// positional list (empty when out of range); any other key is walked as a
/// path (empty when it resolves to nothing printable).
pub open spec fn spec_key_value(key: Seq<char>, args2: ValueV, lv: Seq<Seq<char>>) -> Seq<char> {
    match spec_parse_usize(key) {
        Some(ix) => if ix < lv.len() {
            lv[ix as int]
        } else {
            Seq::empty()
        },
        None => match spec_path_get(args2, key) {
            Some(v) => spec_stringify(v),
            None => Seq::empty(),
        },
    }
}

/// Whether the source contains the opening delimiter `{{`.
pub open spec fn contains_open(s: Seq<char>) -> bool {
    exists|i: int| 0 <= i && i + 1 < s.len() && #[trigger] s[i] == '{' && s[i + 1] == '{'
}

/// The index of the first `}` at or after `i + 2`.
pub open spec fn brace_end(s: Seq<char>, i: int) -> int {
    i + 2 + idx_of_char(s.skip(i + 2), '}')
}

/// Whether a placeholder match starts at `i`: the two opening braces, at
/// least one key character before the first `}`, and a second `}` right
/// after it.
pub open spec fn spec_match_at(s: Seq<char>, i: int) -> bool {
    &&& 0 <= i
    &&& i + 1 < s.len()
    &&& s[i] == '{'
    &&& s[i + 1] == '{'
    &&& brace_end(s, i) > i + 2
    &&& brace_end(s, i) + 1 < s.len()
    &&& s[brace_end(s, i) + 1] == '}'
}

/// The expansion of the source from position `i` on: placeholders are
/// replaced left to right, everything else is copied.
pub open spec fn spec_render_from(s: Seq<char>, i: int, args2: ValueV, lv: Seq<Seq<char>>) -> Seq<
    char,
>
    decreases s.len() - i,
{
    if !(0 <= i < s.len()) {
        Seq::empty()
    } else if spec_match_at(s, i) {
        spec_key_value(s.subrange(i + 2, brace_end(s, i)), args2, lv) + spec_render_from(
            s,
            brace_end(s, i) + 2,
            args2,
            lv,
        )
    } else {
        seq![s[i]] + spec_render_from(s, i + 1, args2, lv)
    }
}

/// The whole expansion: a source without `{{` is itself; otherwise it is
/// scanned against the synthesised arguments.
pub open spec fn spec_render(s: Seq<char>, args: ValueV, lv: Seq<Seq<char>>) -> Seq<char> {
    if contains_open(s) {
        spec_render_from(s, 0, spec_synth(args), lv)
    } else {
        s
    }
}

/// Build the arguments with the two convenience fields synthesised in.
pub fn synth_args(args: &Value) -> (r: Value)
    ensures
        r@ == spec_synth(args@),
{
    proof {
        reveal_strlit("path_server_name");
        reveal_strlit("path_thread_id");
        reveal_strlit("server_name");
        reveal_strlit("message_thread_id");
        assert("path_server_name"@ =~= path_server_name_key());
        assert("path_thread_id"@ =~= path_thread_id_key());
        assert("server_name"@ =~= server_name_key());
        assert("message_thread_id"@ =~= message_thread_id_key());
    }
    let psn = Args::get_string(args, "path_server_name", "server_name".to_owned());
    let ptid = Args::get_string(args, "path_thread_id", "message_thread_id".to_owned());
    let sn = Args::get_string(args, psn.as_str(), String::new());
    let tid = Args::get_i64(args, ptid.as_str(), -1);
    let copy = args.duplicate();
    let mut es: Vec<(String, Value)> = match copy {
        Value::Mapping(entries) => entries,
        _ => Vec::new(),
    };
    proof {
        if args@ is Mapping {
            assert(entries_view(es@) == args@->Mapping_0);
        } else {
            assert(entries_view(es@) =~= Seq::<(Seq<char>, ValueV)>::empty());
        }
    }
    map_insert(&mut es, "server_name".to_owned(), Value::Text(sn));
    map_insert(&mut es, "message_thread_id".to_owned(), Value::Int(tid));
    Value::Mapping(es)
}

/// Walk the dot-separated path in `key[from..]` through the value.
fn path_get<'a>(v: &'a Value, key: &Vec<char>, from: usize) -> (r: Option<&'a Value>)
    requires
        from <= key@.len(),
    ensures
        match r {
            Some(x) => spec_path_get(v@, key@.skip(from as int)) == Some(x@),
            None => spec_path_get(v@, key@.skip(from as int)) is None,
        },
    decreases key@.len() - from,
{
    let ghost ks = key@.skip(from as int);
    let n = key.len();
    let mut d: usize = from;
    while d < n && key[d] != '.'
        invariant
            from <= d <= n,
            n == key@.len(),
            forall|j: int| from <= j < d ==> key@[j] != '.',
        decreases n - d,
    {
        d = d + 1;
    }
    proof {
        assert forall|j: int| 0 <= j < d - from implies ks[j] != '.' by {
            assert(ks[j] == key@[from + j]);
        }
        if d < n {
            assert(ks[d - from] == key@[d as int]);
        }
        lemma_idx_of_char_is(ks, '.', d - from);
        assert(ks.take(d - from) =~= key@.subrange(from as int, d as int));
    }
    match v {
        Value::Mapping(es) => {
            let m = es.len();
            let mut i: usize = 0;
            while i < m
                invariant
                    i <= m,
                    m == es@.len(),
                    v is Mapping && es@ == v->Mapping_0@,
                    from <= d <= n,
                    n == key@.len(),
                    ks == key@.skip(from as int),
                    idx_of_char(ks, '.') == d - from,
                    ks.take(d - from) == key@.subrange(from as int, d as int),
                    forall|j: int| 0 <= j < i ==> (#[trigger] es@[j]).0@ != key@.subrange(
                        from as int,
                        d as int,
                    ),
                decreases m - i,
            {
                if chars_eq_str(key, from, d, es[i].0.as_str()) {
                    proof {
                        let ev = entries_view(es@);
                        lemma_entries_view_len(es@);
                        assert forall|j: int| 0 <= j < i implies (#[trigger] ev[j]).0 != ks.take(
                            d - from,
                        ) by {
                            lemma_entries_view_index(es@, j);
                        }
                        lemma_lookup_prefix_miss(ev, ks.take(d - from), i as int);
                        lemma_entries_view_index(es@, i as int);
                        assert(ev.skip(i as int)[0] == ev[i as int]);
                        assert(map_lookup(ev, ks.take(d - from)) == Some(value_view_of(
                            es@[i as int].1,
                        )));
                    }
                    if d == n {
                        proof {
                            assert(d - from == ks.len());
                        }
                        return Some(&es[i].1);
                    }
                    proof {
                        assert(ks.skip(d - from + 1) =~= key@.skip(d + 1int));
                    }
                    return path_get(&es[i].1, key, d + 1);
                }
                i = i + 1;
            }
            proof {
                let ev = entries_view(es@);
                lemma_entries_view_len(es@);
                assert forall|j: int| 0 <= j < m implies (#[trigger] ev[j]).0 != ks.take(
                    d - from,
                ) by {
                    lemma_entries_view_index(es@, j);
                }
                lemma_lookup_prefix_miss(ev, ks.take(d - from), m as int);
                assert(ev.skip(m as int) =~= Seq::<(Seq<char>, ValueV)>::empty());
            }
            None
        },
        _ => None,
    }
}

/// The view of one value; spec-level shorthand for proofs by name.
pub open spec fn value_view_of(v: Value) -> ValueV {
    v@
}

/// Expand one placeholder key against the arguments and positional list.
fn key_value(key: &Vec<char>, args2: &Value, list_values: &Vec<String>) -> (r: Vec<char>)
    ensures
        r@ == spec_key_value(key@, args2@, strs_view(list_values@)),
{
    proof {
        lemma_strs_view_len(list_values@);
    }
    match parse_usize_chars(key) {
        Some(ix) => {
            if ix < list_values.len() {
                proof {
                    lemma_strs_view_index(list_values@, ix as int);
                }
                str_to_chars(list_values[ix].as_str())
            } else {
                Vec::new()
            }
        },
        None => {
            proof {
                assert(key@.skip(0) =~= key@);
            }
            match path_get(args2, key, 0) {
                Some(v) => match v.scalar_text() {
                    Some(t) => str_to_chars(t.as_str()),
                    None => Vec::new(),
                },
                None => Vec::new(),
            }
        },
    }
}

/// Expand `{{...}}` placeholders in the source against the arguments and
/// the positional value list. A source without `{{` is returned unchanged,
/// without expansion.
pub fn get_and_format(string: &str, args: &Value, list_values: &Vec<String>) -> (r: String)
    ensures
        r@ == spec_render(string@, args@, strs_view(list_values@)),
        !contains_open(string@) ==> r@ == string@,
{
    let cs = str_to_chars(string);
    let n = cs.len();
    let mut found: bool = false;
    let mut i: usize = 0;
    while i + 1 < n && !found
        invariant
            i == 0 || i < n,
            i <= n,
            n == cs@.len(),
            cs@ == string@,
            found ==> i + 1 < n && cs@[i as int] == '{' && cs@[i + 1] == '{',
            !found ==> forall|j: int| 0 <= j < i ==> !(#[trigger] cs@[j] == '{' && cs@[j + 1] == '{'),
        decreases n - i, (if found { 0int } else { 1int }),
    {
        if cs[i] == '{' && cs[i + 1] == '{' {
            found = true;
        } else {
            i = i + 1;
        }
    }
    if !found {
        proof {
            assert(!contains_open(string@));
        }
        return string.to_owned();
    }
    proof {
        assert(contains_open(string@));
    }
    let ghost lv = strs_view(list_values@);
    let a2 = synth_args(args);
    let mut out: Vec<char> = Vec::new();
    let mut i: usize = 0;
    while i < n
        invariant
            i <= n,
            n == cs@.len(),
            cs@ == string@,
            a2@ == spec_synth(args@),
            lv == strs_view(list_values@),
            spec_render_from(cs@, 0, a2@, lv) == out@ + spec_render_from(cs@, i as int, a2@, lv),
        decreases n - i,
    {
        let ghost s = cs@;
        let mut matched: bool = false;
        if i + 1 < n && cs[i] == '{' && cs[i + 1] == '{' {
            let mut p: usize = i + 2;
            while p < n && cs[p] != '}'
                invariant
                    i + 2 <= p <= n,
                    n == cs@.len(),
                    forall|j: int| i + 2 <= j < p ==> cs@[j] != '}',
                decreases n - p,
            {
                p = p + 1;
            }
            proof {
                let suf = s.skip(i + 2);
                assert forall|j: int| 0 <= j < p - i - 2 implies suf[j] != '}' by {
                    assert(suf[j] == s[i + 2 + j]);
                }
                if p < n {
                    assert(suf[p - i - 2] == s[p as int]);
                }
                lemma_idx_of_char_is(suf, '}', p - i - 2);
                assert(brace_end(s, i as int) == p);
            }
            let mut ok: bool = false;
            if p < n {
                if p > i + 2 && p + 1 < n {
                    if cs[p + 1] == '}' {
                        ok = true;
                    }
                }
            }
            if ok {
                proof {
                    assert(spec_match_at(s, i as int));
                }
                let key = subvec(&cs, i + 2, p);
                let piece = key_value(&key, &a2, list_values);
                push_all(&mut out, &piece);
                proof {
                    assert(key@ == s.subrange(i + 2, brace_end(s, i as int)));
                    assert(spec_render_from(s, i as int, a2@, lv) == piece@ + spec_render_from(
                        s,
                        p + 2int,
                        a2@,
                        lv,
                    ));
                    assert((out@ + spec_render_from(s, p + 2int, a2@, lv)) =~= (out@.subrange(
                        0,
                        out@.len() - piece@.len(),
                    ) + (piece@ + spec_render_from(s, p + 2int, a2@, lv))));
                }
                i = p + 2;
                matched = true;
            } else {
                proof {
                    assert(!spec_match_at(s, i as int));
                }
            }
        } else {
            proof {
                if i + 1 < n {
                    assert(!spec_match_at(s, i as int));
                } else {
                    assert(!spec_match_at(s, i as int));
                }
            }
        }
        if !matched {
            proof {
                assert(!spec_match_at(s, i as int));
                assert(spec_render_from(s, i as int, a2@, lv) == seq![s[i as int]]
                    + spec_render_from(s, i + 1int, a2@, lv));
                assert((out@.push(s[i as int]) + spec_render_from(s, i + 1int, a2@, lv)) =~= (out@
                    + spec_render_from(s, i as int, a2@, lv)));
            }
            out.push(cs[i]);
            i = i + 1;
        }
    }
    proof {
        assert(spec_render_from(cs@, n as int, a2@, lv) =~= Seq::<char>::empty());
        assert(out@ + Seq::<char>::empty() =~= out@);
    }
    chars_to_string(&out)
}

/// Expand a list of sources, or the default list when none is given.
pub fn format(
    input: Option<Vec<String>>,
    args: &Value,
    list_values: &Vec<String>,
    default: Vec<String>,
) -> (r: Vec<String>)
    ensures
        ({
            let src = match input {
                Some(v) => strs_view(v@),
                None => strs_view(default@),
            };
            &&& strs_view(r@).len() == src.len()
            &&& forall|i: int|
                0 <= i < src.len() ==> strs_view(r@)[i] == spec_render(
                    src[i],
                    args@,
                    strs_view(list_values@),
                )
        }),
{
    let src: Vec<String> = match input {
        Some(v) => v,
        None => default,
    };
    proof {
        lemma_strs_view_len(src@);
    }
    let mut r: Vec<String> = Vec::new();
    let mut i: usize = 0;
    while i < src.len()
        invariant
            i <= src@.len(),
            r@.len() == i,
            forall|j: int|
                0 <= j < i ==> (#[trigger] r@[j])@ == spec_render(
                    src@[j]@,
                    args@,
                    strs_view(list_values@),
                ),
        decreases src@.len() - i,
    {
        let piece = get_and_format(src[i].as_str(), args, list_values);
        r.push(piece);
        i = i + 1;
    }
    proof {
        lemma_strs_view_len(r@);
        lemma_strs_view_len(src@);
        assert forall|j: int| 0 <= j < src@.len() implies strs_view(r@)[j] == spec_render(
            strs_view(src@)[j],
            args@,
            strs_view(list_values@),
        ) by {
            lemma_strs_view_index(r@, j);
            lemma_strs_view_index(src@, j);
        }
    }
    r
}

/// Subject determinism: the expansion is a function of the source, the
/// arguments and the positional values alone, so two results that both
/// satisfy the rendering relation are byte-identical.
pub proof fn lemma_subject_determinism(
    s: Seq<char>,
    args: ValueV,
    lv: Seq<Seq<char>>,
    r1: Seq<char>,
    r2: Seq<char>,
)
    requires
        r1 == spec_render(s, args, lv),
        r2 == spec_render(s, args, lv),
    ensures
        r1 == r2,
{
}

} // verus!

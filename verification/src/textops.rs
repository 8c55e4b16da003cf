//! Text utilities: escaping for console command strings.

use vstd::prelude::*;
use crate::text::{chars_to_string, lemma_strs_view_index, lemma_strs_view_len, push_all, str_to_chars, strs_view, subvec};

verus! {

broadcast use vstd::seq::group_seq_axioms, vstd::std_specs::vec::group_vec_axioms;

/// What one character becomes under escaping: a backslash, double quote or
/// single quote gets a backslash in front; every other character stays.
pub open spec fn escape_char(c: char) -> Seq<char> {
    if c == '\\' {
        seq!['\\', '\\']
    } else if c == '"' {
        seq!['\\', '"']
    } else if c == '\'' {
        seq!['\\', '\'']
    } else {
        seq![c]
    }
}

/// The escaped form of a string: each character replaced by its escaped form.
pub open spec fn spec_escape(s: Seq<char>) -> Seq<char>
    decreases s.len(),
{
    if s.len() == 0 {
        Seq::empty()
    } else {
        escape_char(s[0]) + spec_escape(s.skip(1))
    }
}

proof fn lemma_spec_escape_push(s: Seq<char>, c: char)
    ensures
        spec_escape(s.push(c)) == spec_escape(s) + escape_char(c),
    decreases s.len(),
{
    if s.len() == 0 {
        assert(s.push(c)[0] == c);
        assert(s.push(c).skip(1) =~= Seq::<char>::empty());
        assert(spec_escape(s.push(c)) == escape_char(c) + spec_escape(Seq::<char>::empty()));
        assert(escape_char(c) + spec_escape(Seq::<char>::empty()) =~= escape_char(c));
        assert(spec_escape(s) + escape_char(c) =~= escape_char(c));
    } else {
        assert(s.push(c)[0] == s[0]);
        assert(s.push(c).skip(1) =~= s.skip(1).push(c));
        lemma_spec_escape_push(s.skip(1), c);
        assert(spec_escape(s.push(c)) =~= escape_char(s[0]) + (spec_escape(s.skip(1))
            + escape_char(c)));
        assert(escape_char(s[0]) + (spec_escape(s.skip(1)) + escape_char(c)) =~= (escape_char(s[0])
            + spec_escape(s.skip(1))) + escape_char(c));
    }
}

/// Escape a command string: prefix every `\`, `"` and `'` with a backslash.
pub fn escape_string(s: String) -> (r: String)
    ensures
        r@ == spec_escape(s@),
{
    let cs = str_to_chars(s.as_str());
    let mut out: Vec<char> = Vec::new();
    let mut i: usize = 0;
    while i < cs.len()
        invariant
            i <= cs.len(),
            cs@ == s@,
            out@ == spec_escape(cs@.take(i as int)),
        decreases cs.len() - i,
    {
        let c = cs[i];
        proof {
            assert(cs@.take(i + 1int) =~= cs@.take(i as int).push(c));
            lemma_spec_escape_push(cs@.take(i as int), c);
        }
        if c == '\\' {
            out.push('\\');
            out.push('\\');
        } else if c == '"' {
            out.push('\\');
            out.push('"');
        } else if c == '\'' {
            out.push('\\');
            out.push('\'');
        } else {
            out.push(c);
        }
        i = i + 1;
    }
    proof {
        assert(cs@.take(cs@.len() as int) =~= cs@);
    }
    chars_to_string(&out)
}


/// Escape idempotence on clean input: a string holding none of the three
/// escaped characters comes back unchanged.
pub proof fn lemma_escape_unchanged(s: Seq<char>)
    requires
        forall|i: int| 0 <= i < s.len() ==> #[trigger] s[i] != '\\' && s[i] != '"' && s[i] != '\'',
    ensures
        spec_escape(s) == s,
    decreases s.len(),
{
    if s.len() == 0 {
        assert(spec_escape(s) =~= s);
    } else {
        assert forall|i: int| 0 <= i < s.skip(1).len() implies #[trigger] s.skip(1)[i] != '\\'
            && s.skip(1)[i] != '"' && s.skip(1)[i] != '\'' by {
            assert(s.skip(1)[i] == s[i + 1]);
        }
        lemma_escape_unchanged(s.skip(1));
        assert(escape_char(s[0]) == seq![s[0]]);
        assert(spec_escape(s) =~= s);
    }
}

/// Well-escaped text: read left to right, every backslash starts a two
/// character escape pair, and no quote stands on its own.
pub open spec fn escaped_wf(s: Seq<char>) -> bool
    decreases s.len(),
{
    if s.len() == 0 {
        true
    } else if s[0] == '\\' {
        s.len() >= 2 && (s[1] == '\\' || s[1] == '"' || s[1] == '\'') && escaped_wf(s.skip(2))
    } else {
        s[0] != '"' && s[0] != '\'' && escaped_wf(s.skip(1))
    }
}

/// Escaping any string yields well-escaped text: no bare quote and no
/// stray backslash outside an escape pair.
pub proof fn lemma_escape_wf(s: Seq<char>)
    ensures
        escaped_wf(spec_escape(s)),
    decreases s.len(),
{
    if s.len() > 0 {
        lemma_escape_wf(s.skip(1));
        let r = spec_escape(s);
        let rest = spec_escape(s.skip(1));
        let c = s[0];
        if c == '\\' || c == '"' || c == '\'' {
            assert(r[0] == '\\' && r[1] == c);
            assert(r.skip(2) =~= rest);
        } else {
            assert(r[0] == c);
            assert(r.skip(1) =~= rest);
        }
    }
}

/// Whether the pattern occurs in the text at position `i`.
pub open spec fn occurs_at(s: Seq<char>, pat: Seq<char>, i: int) -> bool {
    0 <= i && i + pat.len() <= s.len() && s.subrange(i, i + pat.len()) == pat
}

/// Index of the first occurrence of the pattern, or `-1` if none.
pub open spec fn first_occ(s: Seq<char>, pat: Seq<char>) -> int
    decreases s.len(),
{
    if occurs_at(s, pat, 0) {
        0
    } else if s.len() == 0 {
        -1
    } else if first_occ(s.skip(1), pat) == -1 {
        -1
    } else {
        1 + first_occ(s.skip(1), pat)
    }
}

pub proof fn lemma_first_occ(s: Seq<char>, pat: Seq<char>)
    ensures
        first_occ(s, pat) == -1 ==> forall|j: int| !occurs_at(s, pat, j),
        first_occ(s, pat) != -1 ==> 0 <= first_occ(s, pat) && occurs_at(s, pat, first_occ(s, pat))
            && forall|j: int| 0 <= j < first_occ(s, pat) ==> !occurs_at(s, pat, j),
    decreases s.len(),
{
    if !occurs_at(s, pat, 0) && s.len() > 0 {
        lemma_first_occ(s.skip(1), pat);
        assert forall|j: int| 1 <= j implies occurs_at(s, pat, j) == occurs_at(
            s.skip(1),
            pat,
            j - 1,
        ) by {
            if 0 <= j - 1 && j - 1 + pat.len() <= s.skip(1).len() {
                assert(s.skip(1).subrange(j - 1, j - 1 + pat.len()) =~= s.subrange(
                    j,
                    j + pat.len(),
                ));
            }
        }
        if first_occ(s, pat) == -1 {
            assert forall|j: int| !occurs_at(s, pat, j) by {
                if j >= 1 {
                    assert(!occurs_at(s.skip(1), pat, j - 1));
                }
            }
        } else {
            assert forall|j: int| 0 <= j < first_occ(s, pat) implies !occurs_at(s, pat, j) by {
                if j >= 1 {
                    assert(!occurs_at(s.skip(1), pat, j - 1));
                }
            }
        }
    }
}

/// A position before which the pattern never occurs, and where it occurs
/// or which is past the end, pins the first occurrence down.
pub proof fn lemma_first_occ_is(s: Seq<char>, pat: Seq<char>, d: int)
    requires
        forall|j: int| 0 <= j < d ==> !occurs_at(s, pat, j),
        d >= 0,
        occurs_at(s, pat, d) || (d + pat.len() > s.len() && forall|j: int|
            j >= d ==> !occurs_at(s, pat, j)),
    ensures
        occurs_at(s, pat, d) ==> first_occ(s, pat) == d,
        !occurs_at(s, pat, d) ==> first_occ(s, pat) == -1,
    decreases d + s.len(),
{
    lemma_first_occ(s, pat);
    if occurs_at(s, pat, d) {
        let f = first_occ(s, pat);
        if f == -1 {
            assert(!occurs_at(s, pat, d));
        } else if f < d {
            assert(!occurs_at(s, pat, f));
        } else if f > d {
            assert(!occurs_at(s, pat, d));
        }
    } else {
        let f = first_occ(s, pat);
        if f != -1 {
            if f < d {
                assert(!occurs_at(s, pat, f));
            } else {
                assert(!occurs_at(s, pat, f));
            }
        }
    }
}

/// The text with every occurrence of the pattern replaced, scanning left
/// to right and not rescanning replacements, as `str::replace` does. The
/// pattern is assumed non-empty; an empty pattern leaves the text as it is.
pub open spec fn spec_replace_all(s: Seq<char>, pat: Seq<char>, to: Seq<char>) -> Seq<char>
    decreases s.len(),
    via spec_replace_all_decreases
{
    if pat.len() == 0 {
        s
    } else {
        let i = first_occ(s, pat);
        if i == -1 {
            s
        } else {
            s.take(i) + to + spec_replace_all(s.skip(i + pat.len()), pat, to)
        }
    }
}

#[via_fn]
proof fn spec_replace_all_decreases(s: Seq<char>, pat: Seq<char>, to: Seq<char>) {
    lemma_first_occ(s, pat);
}

/// The text with the first occurrence of the pattern replaced, as
/// `str::replacen(.., 1)` does; an empty pattern inserts at the front.
pub open spec fn spec_replace_first(s: Seq<char>, pat: Seq<char>, to: Seq<char>) -> Seq<char> {
    if pat.len() == 0 {
        to + s
    } else {
        let i = first_occ(s, pat);
        if i == -1 {
            s
        } else {
            s.take(i) + to + s.skip(i + pat.len())
        }
    }
}

/// Find the first occurrence of the pattern at or after `start`.
pub fn find_from(cs: &Vec<char>, pat: &Vec<char>, start: usize) -> (r: Option<usize>)
    requires
        start <= cs@.len(),
        pat@.len() >= 1,
    ensures
        match r {
            Some(i) => start <= i && occurs_at(cs@, pat@, i as int) && forall|j: int|
                start <= j < i ==> !occurs_at(cs@, pat@, j),
            None => forall|j: int| j >= start ==> !occurs_at(cs@, pat@, j),
        },
{
    let n = cs.len();
    let m = pat.len();
    if m > n {
        return None;
    }
    let mut i: usize = start;
    if i > n - m {
        proof {
            assert forall|j: int| j >= start implies !occurs_at(cs@, pat@, j) by {
                assert(j + m > n);
            }
        }
        return None;
    }
    while i <= n - m
        invariant
            start <= i,
            i <= n - m + 1,
            n == cs@.len(),
            m == pat@.len(),
            m >= 1,
            m <= n,
            forall|j: int| start <= j < i ==> !occurs_at(cs@, pat@, j),
        decreases n - i,
    {
        let mut k: usize = 0;
        let mut hit: bool = true;
        while k < m && hit
            invariant
                k <= m,
                i + m <= n,
                n == cs@.len(),
                m == pat@.len(),
                hit ==> forall|t: int| 0 <= t < k ==> cs@[i + t] == pat@[t],
                !hit ==> !occurs_at(cs@, pat@, i as int),
            decreases m - k, (if hit { 1int } else { 0int }),
        {
            if cs[i + k] != pat[k] {
                proof {
                    if occurs_at(cs@, pat@, i as int) {
                        assert(cs@.subrange(i as int, i + m)[k as int] == cs@[i + k]);
                    }
                }
                hit = false;
            } else {
                k = k + 1;
            }
        }
        if hit {
            proof {
                assert(cs@.subrange(i as int, i + m) =~= pat@);
            }
            return Some(i);
        }
        i = i + 1;
    }
    proof {
        assert forall|j: int| j >= start implies !occurs_at(cs@, pat@, j) by {
            if j >= i {
                assert(j + m > n);
            }
        }
    }
    None
}

/// Replace every occurrence of the pattern, left to right.
pub fn replace_all_chars(cs: &Vec<char>, pat: &Vec<char>, to: &Vec<char>) -> (r: Vec<char>)
    requires
        pat@.len() >= 1,
    ensures
        r@ == spec_replace_all(cs@, pat@, to@),
{
    let n = cs.len();
    let m = pat.len();
    let mut out: Vec<char> = Vec::new();
    let mut pos: usize = 0;
    proof {
        assert(cs@.skip(0) =~= cs@);
        assert(Seq::<char>::empty() + spec_replace_all(cs@, pat@, to@) =~= spec_replace_all(
            cs@,
            pat@,
            to@,
        ));
    }
    while pos < n
        invariant
            pos <= n,
            n == cs@.len(),
            m == pat@.len(),
            m >= 1,
            spec_replace_all(cs@, pat@, to@) == out@ + spec_replace_all(
                cs@.skip(pos as int),
                pat@,
                to@,
            ),
        decreases n - pos,
    {
        let ghost suf = cs@.skip(pos as int);
        match find_from(cs, pat, pos) {
            Some(i) => {
                proof {
                    assert forall|j: int| 0 <= j < i - pos implies !occurs_at(suf, pat@, j) by {
                        assert(!occurs_at(cs@, pat@, pos + j));
                        if 0 <= j && j + pat@.len() <= suf.len() {
                            assert(suf.subrange(j, j + pat@.len()) =~= cs@.subrange(
                                pos + j,
                                pos + j + pat@.len(),
                            ));
                        }
                    }
                    assert(suf.subrange(i - pos, i - pos + pat@.len()) =~= cs@.subrange(
                        i as int,
                        i + pat@.len(),
                    ));
                    assert(occurs_at(suf, pat@, i - pos));
                    lemma_first_occ_is(suf, pat@, i - pos);
                    assert(first_occ(suf, pat@) == i - pos);
                }
                let chunk = subvec(cs, pos, i);
                push_all(&mut out, &chunk);
                push_all(&mut out, to);
                proof {
                    assert(suf.take(i - pos) =~= cs@.subrange(pos as int, i as int));
                    assert(suf.skip(i - pos + pat@.len()) =~= cs@.skip(i + pat@.len()));
                    assert(spec_replace_all(suf, pat@, to@) == suf.take(i - pos) + to@
                        + spec_replace_all(cs@.skip(i + pat@.len()), pat@, to@));
                }
                pos = i + m;
                proof {
                    assert(out@ + spec_replace_all(cs@.skip(pos as int), pat@, to@)
                        =~= spec_replace_all(cs@, pat@, to@));
                }
            },
            None => {
                proof {
                    assert forall|j: int| !occurs_at(suf, pat@, j) by {
                        if 0 <= j && j + pat@.len() <= suf.len() {
                            assert(!occurs_at(cs@, pat@, pos + j));
                            assert(suf.subrange(j, j + pat@.len()) =~= cs@.subrange(
                                pos + j,
                                pos + j + pat@.len(),
                            ));
                        }
                    }
                    lemma_first_occ(suf, pat@);
                    if first_occ(suf, pat@) != -1 {
                        assert(occurs_at(suf, pat@, first_occ(suf, pat@)));
                    }
                    assert(spec_replace_all(suf, pat@, to@) == suf);
                    assert(suf =~= cs@.subrange(pos as int, n as int));
                }
                let chunk = subvec(cs, pos, n);
                push_all(&mut out, &chunk);
                proof {
                    assert(out@ =~= spec_replace_all(cs@, pat@, to@));
                }
                return out;
            },
        }
    }
    proof {
        assert(cs@.skip(n as int) =~= Seq::<char>::empty());
        assert(spec_replace_all(Seq::<char>::empty(), pat@, to@) == Seq::<char>::empty());
        assert(out@ + Seq::<char>::empty() =~= out@);
    }
    out
}

/// Replace the first occurrence of the pattern, if any.
pub fn replace_first_chars(cs: &Vec<char>, pat: &Vec<char>, to: &Vec<char>) -> (r: Vec<char>)
    ensures
        r@ == spec_replace_first(cs@, pat@, to@),
{
    let n = cs.len();
    if pat.len() == 0 {
        let mut out: Vec<char> = Vec::new();
        push_all(&mut out, to);
        push_all(&mut out, cs);
        return out;
    }
    match find_from(cs, pat, 0) {
        Some(i) => {
            proof {
                lemma_first_occ_is(cs@, pat@, i as int);
            }
            let mut out = subvec(cs, 0, i);
            proof {
                assert(cs@.subrange(0, i as int) =~= cs@.take(i as int));
            }
            push_all(&mut out, to);
            let tail = subvec(cs, i + pat.len(), n);
            push_all(&mut out, &tail);
            proof {
                assert(cs@.subrange(i + pat@.len(), n as int) =~= cs@.skip(i + pat@.len()));
            }
            out
        },
        None => {
            proof {
                lemma_first_occ(cs@, pat@);
                if first_occ(cs@, pat@) != -1 {
                    assert(occurs_at(cs@, pat@, first_occ(cs@, pat@)));
                }
            }
            let mut out: Vec<char> = Vec::new();
            push_all(&mut out, cs);
            out
        },
    }
}

/// The views of a pair list, element by element.
pub open spec fn pairs_view(s: Seq<(String, String)>) -> Seq<(Seq<char>, Seq<char>)>
    decreases s,
{
    if s.len() == 0 {
        Seq::empty()
    } else {
        seq![(s[0].0@, s[0].1@)] + pairs_view(s.skip(1))
    }
}

pub broadcast proof fn lemma_pairs_view_len(s: Seq<(String, String)>)
    ensures
        #[trigger] pairs_view(s).len() == s.len(),
    decreases s,
{
    if s.len() > 0 {
        lemma_pairs_view_len(s.skip(1));
    }
}

pub broadcast proof fn lemma_pairs_view_index(s: Seq<(String, String)>, i: int)
    requires
        0 <= i < s.len(),
    ensures
        #[trigger] pairs_view(s)[i] == (s[i].0@, s[i].1@),
    decreases s,
{
    lemma_pairs_view_len(s);
    if i > 0 {
        lemma_pairs_view_index(s.skip(1), i - 1);
    }
}

/// A pair list view of one more entry.
pub proof fn lemma_pairs_view_snoc(s: Seq<(String, String)>)
    requires
        s.len() > 0,
    ensures
        pairs_view(s) == pairs_view(s.take(s.len() - 1)).push((s.last().0@, s.last().1@)),
{
    lemma_pairs_view_len(s);
    lemma_pairs_view_len(s.take(s.len() - 1));
    assert forall|j: int| 0 <= j < s.len() implies pairs_view(s)[j] == pairs_view(
        s.take(s.len() - 1),
    ).push((s.last().0@, s.last().1@))[j] by {
        lemma_pairs_view_index(s, j);
        if j < s.len() - 1 {
            lemma_pairs_view_index(s.take(s.len() - 1), j);
        }
    }
    assert(pairs_view(s) =~= pairs_view(s.take(s.len() - 1)).push((s.last().0@, s.last().1@)));
}

/// One character of normalised text: line breaks become spaces.
pub open spec fn normalize_char(c: char) -> char {
    if c == '\n' || c == '\r' {
        ' '
    } else {
        c
    }
}

/// Normalised and truncated text: line breaks become spaces and at most
/// `n` characters are kept.
pub open spec fn spec_normalize_truncate(s: Seq<char>, n: int) -> Seq<char> {
    let mapped = s.map_values(|c: char| normalize_char(c));
    if n < s.len() {
        mapped.take(n)
    } else {
        mapped
    }
}

/// Replace line breaks with spaces in place and truncate to at most `n`
/// characters; the result is also returned.
pub fn normalize_truncate_in_place(text: &mut String, n: usize) -> (r: String)
    ensures
        final(text)@ == spec_normalize_truncate(old(text)@, n as int),
        r@ == final(text)@,
{
    let cs = str_to_chars(text.as_str());
    let m = cs.len();
    let keep = if n < m {
        n
    } else {
        m
    };
    let mut out: Vec<char> = Vec::new();
    let mut i: usize = 0;
    while i < keep
        invariant
            i <= keep <= m,
            m == cs@.len(),
            cs@ == old(text)@,
            out@ == spec_normalize_truncate(cs@, keep as int).take(i as int),
            spec_normalize_truncate(cs@, keep as int) == spec_normalize_truncate(
                cs@,
                n as int,
            ),
        decreases keep - i,
    {
        let c = cs[i];
        if c == '\n' || c == '\r' {
            out.push(' ');
        } else {
            out.push(c);
        }
        proof {
            let whole = spec_normalize_truncate(cs@, keep as int);
            assert(whole.take(i + 1int) =~= whole.take(i as int).push(whole[i as int]));
            assert(whole[i as int] == normalize_char(cs@[i as int]));
        }
        i = i + 1;
    }
    proof {
        let whole = spec_normalize_truncate(cs@, keep as int);
        assert(whole.take(whole.len() as int) =~= whole);
        assert(out@ == whole);
    }
    let r = chars_to_string(&out);
    *text = chars_to_string(&out);
    r
}

/// Whether the text holds an at sign.
pub open spec fn has_at_sign(s: Seq<char>) -> bool {
    exists|i: int| 0 <= i < s.len() && s[i] == '@'
}

/// A mention-safe nickname: in a nickname longer than two characters,
/// every `@` gets a dash behind it, so that chat clients do not resolve
/// it.
pub open spec fn spec_format_mention(s: Seq<char>) -> Seq<char> {
    if s.len() == 0 {
        s
    } else if has_at_sign(s) && s.len() > 2 {
        spec_replace_all(s, seq!['@'], seq!['@', '-'])
    } else {
        s
    }
}

/// Defuse mentions: behind every `@` of a nickname longer than two
/// characters a dash is inserted.
pub fn format_mention(nickname: String) -> (r: String)
    ensures
        r@ == spec_format_mention(nickname@),
{
    if nickname.as_str().is_empty() {
        return nickname;
    }
    let cs = str_to_chars(nickname.as_str());
    let mut found: bool = false;
    let mut i: usize = 0;
    while i < cs.len() && !found
        invariant
            i <= cs@.len(),
            cs@ == nickname@,
            found ==> i < cs@.len() && cs@[i as int] == '@',
            !found ==> forall|j: int| 0 <= j < i ==> cs@[j] != '@',
        decreases cs@.len() - i, (if found {
            0int
        } else {
            1int
        }),
    {
        if cs[i] == '@' {
            found = true;
        } else {
            i = i + 1;
        }
    }
    if found && cs.len() > 2 {
        let mut pat: Vec<char> = Vec::new();
        pat.push('@');
        let mut to: Vec<char> = Vec::new();
        to.push('@');
        to.push('-');
        proof {
            assert(pat@ =~= seq!['@']);
            assert(to@ =~= seq!['@', '-']);
        }
        let out = replace_all_chars(&cs, &pat, &to);
        chars_to_string(&out)
    } else {
        proof {
            if !found {
                assert(!has_at_sign(cs@));
            }
        }
        nickname
    }
}

/// The capture values that are present, in order.
pub open spec fn spec_caps_list(s: Seq<Option<String>>) -> Seq<Seq<char>>
    decreases s,
{
    if s.len() == 0 {
        Seq::empty()
    } else {
        (match s[0] {
            Some(t) => seq![t@],
            None => Seq::empty(),
        }) + spec_caps_list(s.skip(1))
    }
}

/// Keep the capture groups that matched, in order, dropping the groups
/// that took no part in the match.
pub fn captures_to_list(caps: &Vec<Option<String>>) -> (r: Vec<String>)
    ensures
        strs_view(r@) == spec_caps_list(caps@),
{
    let mut r: Vec<String> = Vec::new();
    let mut i: usize = 0;
    while i < caps.len()
        invariant
            i <= caps@.len(),
            strs_view(r@) == spec_caps_list(caps@.take(i as int)),
        decreases caps@.len() - i,
    {
        match &caps[i] {
            Some(t) => {
                let ghost before = r@;
                r.push(t.clone());
                proof {
                    lemma_caps_list_snoc(caps@, i as int);
                    lemma_strs_view_snoc(r@);
                    assert(r@.take(r@.len() - 1) =~= before);
                }
            },
            None => {
                proof {
                    lemma_caps_list_snoc(caps@, i as int);
                }
            },
        }
        i = i + 1;
    }
    proof {
        assert(caps@.take(caps@.len() as int) =~= caps@);
    }
    r
}

/// The present captures of one more entry: the previous ones, then the
/// entry's value if it matched.
pub proof fn lemma_caps_list_snoc(s: Seq<Option<String>>, i: int)
    requires
        0 <= i < s.len(),
    ensures
        spec_caps_list(s.take(i + 1)) == spec_caps_list(s.take(i)) + (match s[i] {
            Some(t) => seq![t@],
            None => Seq::<Seq<char>>::empty(),
        }),
    decreases i,
{
    let t1 = s.take(i + 1);
    let t0 = s.take(i);
    if i == 0 {
        assert(t1[0] == s[0]);
        assert(t1.skip(1) =~= Seq::<Option<String>>::empty());
        assert(t0 =~= Seq::<Option<String>>::empty());
        assert(spec_caps_list(t1) =~= spec_caps_list(t0) + (match s[0] {
            Some(t) => seq![t@],
            None => Seq::<Seq<char>>::empty(),
        }));
    } else {
        assert(s.skip(1).take(i) =~= t1.skip(1));
        assert(s.skip(1).take(i - 1) =~= t0.skip(1));
        assert(s.skip(1)[i - 1] == s[i]);
        lemma_caps_list_snoc(s.skip(1), i - 1);
        assert(t1[0] == s[0] && t0[0] == s[0]);
        assert(spec_caps_list(t1) =~= spec_caps_list(t0) + (match s[i] {
            Some(t) => seq![t@],
            None => Seq::<Seq<char>>::empty(),
        }));
    }
}

/// A string list view of one more entry.
pub proof fn lemma_strs_view_snoc(s: Seq<String>)
    requires
        s.len() > 0,
    ensures
        strs_view(s) == strs_view(s.take(s.len() - 1)).push(s.last()@),
{
    lemma_strs_view_len(s);
    lemma_strs_view_len(s.take(s.len() - 1));
    assert forall|j: int| 0 <= j < s.len() implies strs_view(s)[j] == strs_view(
        s.take(s.len() - 1),
    ).push(s.last()@)[j] by {
        lemma_strs_view_index(s, j);
        if j < s.len() - 1 {
            lemma_strs_view_index(s.take(s.len() - 1), j);
        }
    }
    assert(strs_view(s) =~= strs_view(s.take(s.len() - 1)).push(s.last()@));
}

/// The matched capture at the index.
pub fn get_caps(caps: &Vec<Option<String>>, index: usize) -> (r: String)
    requires
        index < caps@.len(),
        caps@[index as int] is Some,
    ensures
        r@ == caps@[index as int]->0@,
{
    match &caps[index] {
        Some(t) => t.clone(),
        None => String::new(),
    }
}

/// The text with each pair's pattern replaced once by its value, in pair
/// order.
pub open spec fn spec_format_text(s: Seq<char>, pairs: Seq<(Seq<char>, Seq<char>)>) -> Seq<char>
    decreases pairs.len(),
{
    if pairs.len() == 0 {
        s
    } else {
        spec_format_text(spec_replace_first(s, pairs[0].0, pairs[0].1), pairs.skip(1))
    }
}

/// Replace, for each pair in order, the first occurrence of the pattern by
/// the replacement.
pub fn format_text(text: String, text_vec: Vec<(String, String)>) -> (r: String)
    ensures
        r@ == spec_format_text(text@, pairs_view(text_vec@)),
{
    proof {
        lemma_pairs_view_len(text_vec@);
    }
    let mut cur = str_to_chars(text.as_str());
    proof {
        assert(pairs_view(text_vec@).skip(0) =~= pairs_view(text_vec@));
    }
    let mut i: usize = 0;
    while i < text_vec.len()
        invariant
            i <= text_vec@.len(),
            spec_format_text(text@, pairs_view(text_vec@)) == spec_format_text(
                cur@,
                pairs_view(text_vec@).skip(i as int),
            ),
        decreases text_vec@.len() - i,
    {
        proof {
            lemma_pairs_view_len(text_vec@);
            lemma_pairs_view_index(text_vec@, i as int);
        }
        let pat = str_to_chars(text_vec[i].0.as_str());
        let to = str_to_chars(text_vec[i].1.as_str());
        let next = replace_first_chars(&cur, &pat, &to);
        proof {
            let pv = pairs_view(text_vec@);
            assert(pv.skip(i as int)[0] == pv[i as int]);
            assert(pv.skip(i as int).skip(1) =~= pv.skip(i + 1int));
        }
        cur = next;
        i = i + 1;
    }
    proof {
        lemma_pairs_view_len(text_vec@);
        assert(pairs_view(text_vec@).skip(text_vec@.len() as int) =~= Seq::<
            (Seq<char>, Seq<char>),
        >::empty());
    }
    chars_to_string(&cur)
}


/// The characters of the placeholder `{{text_leave}}`.
pub open spec fn text_leave_pat() -> Seq<char> {
    seq!['{', '{', 't', 'e', 'x', 't', '_', 'l', 'e', 'a', 'v', 'e', '}', '}']
}

/// The characters of the placeholder `{{text_join}}`.
pub open spec fn text_join_pat() -> Seq<char> {
    seq!['{', '{', 't', 'e', 'x', 't', '_', 'j', 'o', 'i', 'n', '}', '}']
}

/// The characters of the placeholder `{{text_edit_nickname}}`.
pub open spec fn text_edit_nickname_pat() -> Seq<char> {
    seq!['{', '{', 't', 'e', 'x', 't', '_', 'e', 'd', 'i', 't', '_', 'n', 'i', 'c', 'k', 'n', 'a', 'm', 'e', '}', '}']
}

/// The characters of the placeholder `{{text}}`.
pub open spec fn text_pat() -> Seq<char> {
    seq!['{', '{', 't', 'e', 'x', 't', '}', '}']
}

/// The characters of the placeholder `{{player}}`.
pub open spec fn player_pat() -> Seq<char> {
    seq!['{', '{', 'p', 'l', 'a', 'y', 'e', 'r', '}', '}']
}

/// The fixed texts that the join/leave generator draws on.
pub struct TextEnv {
    pub text: String,
    pub text_leave: String,
    pub text_join: String,
    pub text_edit_nickname: String,
}

/// The generated join/leave line: the template with the three event
/// placeholders filled once each, spliced into the base text with the
/// player name, mention-defused.
pub open spec fn spec_generated_line(
    caps1: Seq<char>,
    template: Seq<char>,
    text: Seq<char>,
    leave: Seq<char>,
    join: Seq<char>,
    edit: Seq<char>,
) -> Seq<char> {
    let t = spec_replace_first(
        spec_replace_first(spec_replace_first(template, text_leave_pat(), leave), text_join_pat(), join),
        text_edit_nickname_pat(),
        edit,
    );
    spec_format_mention(
        spec_replace_first(spec_replace_first(text, text_pat(), t), player_pat(), caps1),
    )
}

/// Turn a capture set into a chat pair. Three captures (full match,
/// sender, message) give the sender, mention-defused, and the message.
/// Any other shape fills the template: the event placeholders are
/// replaced once each, the result is spliced into the base text, and the
/// player name is taken from the first capture group.
pub fn generate_text(caps: &Vec<Option<String>>, template: &str, env: &TextEnv) -> (r: Option<
    (String, String),
>)
    ensures
        ({
            if caps@.len() == 3 {
                &&& r is Some <==> (caps@[1] is Some && caps@[2] is Some)
                &&& match r {
                    Some(p) => p.0@ == spec_format_mention(caps@[1]->0@) && p.1@ == caps@[2]->0@,
                    None => true,
                }
            } else {
                &&& r is Some <==> (caps@.len() > 1 && caps@[1] is Some)
                &&& match r {
                    Some(p) => p.0@ == Seq::<char>::empty() && p.1@ == spec_generated_line(
                        caps@[1]->0@,
                        template@,
                        env.text@,
                        env.text_leave@,
                        env.text_join@,
                        env.text_edit_nickname@,
                    ),
                    None => true,
                }
            }
        }),
{
    proof {
        reveal_strlit("{{text_leave}}");
        reveal_strlit("{{text_join}}");
        reveal_strlit("{{text_edit_nickname}}");
        reveal_strlit("{{text}}");
        reveal_strlit("{{player}}");
        assert("{{text_leave}}"@ =~= text_leave_pat());
        assert("{{text_join}}"@ =~= text_join_pat());
        assert("{{text_edit_nickname}}"@ =~= text_edit_nickname_pat());
        assert("{{text}}"@ =~= text_pat());
        assert("{{player}}"@ =~= player_pat());
    }
    if caps.len() == 3 {
        let one = match &caps[1] {
            Some(t) => t.clone(),
            None => {
                return None;
            },
        };
        let two = match &caps[2] {
            Some(t) => t.clone(),
            None => {
                return None;
            },
        };
        Some((format_mention(one), two))
    } else {
        if caps.len() <= 1 {
            return None;
        }
        let one = match &caps[1] {
            Some(t) => t.clone(),
            None => {
                return None;
            },
        };
        let tpl = str_to_chars(template);
        let t1 = replace_first_chars(&tpl, &str_to_chars("{{text_leave}}"), &str_to_chars(
            env.text_leave.as_str(),
        ));
        let t2 = replace_first_chars(&t1, &str_to_chars("{{text_join}}"), &str_to_chars(
            env.text_join.as_str(),
        ));
        let t3 = replace_first_chars(&t2, &str_to_chars("{{text_edit_nickname}}"), &str_to_chars(
            env.text_edit_nickname.as_str(),
        ));
        let base = str_to_chars(env.text.as_str());
        let b1 = replace_first_chars(&base, &str_to_chars("{{text}}"), &t3);
        let b2 = replace_first_chars(&b1, &str_to_chars("{{player}}"), &str_to_chars(one.as_str()));
        Some((String::new(), format_mention(chars_to_string(&b2))))
    }
}

} // verus!

//! Character-level view of strings.
//!
//! The text algorithms of this crate work on `Vec<char>`, whose view is a
//! `Seq<char>` just like the view of `String` and `&str`; these two
//! bridges move between the representations without changing the view.

use vstd::prelude::*;

verus! {

broadcast use vstd::seq::group_seq_axioms, vstd::std_specs::vec::group_vec_axioms;

/// Relies on str::chars: yields the string's characters in order.
#[verifier::external_body]
pub fn str_to_chars(s: &str) -> (r: Vec<char>)
    ensures
        r@ == s@,
{
    s.chars().collect()
}

/// Relies on String's FromIterator<char>: collects the characters in order.
#[verifier::external_body]
pub fn chars_to_string(v: &Vec<char>) -> (r: String)
    ensures
        r@ == v@,
{
    v.iter().collect()
}


/// The views of a sequence of strings, element by element.
pub open spec fn strs_view(s: Seq<String>) -> Seq<Seq<char>>
    decreases s,
{
    if s.len() == 0 {
        Seq::empty()
    } else {
        seq![s[0]@] + strs_view(s.skip(1))
    }
}

pub broadcast proof fn lemma_strs_view_len(s: Seq<String>)
    ensures
        #[trigger] strs_view(s).len() == s.len(),
    decreases s,
{
    if s.len() > 0 {
        lemma_strs_view_len(s.skip(1));
    }
}

pub broadcast proof fn lemma_strs_view_index(s: Seq<String>, i: int)
    requires
        0 <= i < s.len(),
    ensures
        #[trigger] strs_view(s)[i] == s[i]@,
    decreases s,
{
    lemma_strs_view_len(s);
    if i > 0 {
        lemma_strs_view_index(s.skip(1), i - 1);
    }
}

/// Append all characters of `add` to `out`.
pub fn push_all(out: &mut Vec<char>, add: &Vec<char>)
    ensures
        final(out)@ == old(out)@ + add@,
{
    let ghost start = out@;
    let mut i: usize = 0;
    while i < add.len()
        invariant
            i <= add@.len(),
            out@ == start + add@.take(i as int),
        decreases add@.len() - i,
    {
        out.push(add[i]);
        proof {
            assert(add@.take(i + 1int) =~= add@.take(i as int).push(add@[i as int]));
            assert(start + add@.take(i + 1int) =~= (start + add@.take(i as int)).push(
                add@[i as int],
            ));
        }
        i = i + 1;
    }
    proof {
        assert(add@.take(add@.len() as int) =~= add@);
    }
}

/// Copy the character range `[from, to)`.
pub fn subvec(cs: &Vec<char>, from: usize, to: usize) -> (r: Vec<char>)
    requires
        from <= to <= cs@.len(),
    ensures
        r@ == cs@.subrange(from as int, to as int),
{
    let mut r: Vec<char> = Vec::new();
    let mut i: usize = from;
    while i < to
        invariant
            from <= i <= to <= cs@.len(),
            r@ == cs@.subrange(from as int, i as int),
        decreases to - i,
    {
        r.push(cs[i]);
        proof {
            assert(cs@.subrange(from as int, i + 1int) =~= cs@.subrange(from as int, i as int).push(
                cs@[i as int],
            ));
        }
        i = i + 1;
    }
    r
}

/// Whether the characters `[from, to)` equal the string's characters.
pub fn chars_eq_str(cs: &Vec<char>, from: usize, to: usize, s: &str) -> (r: bool)
    requires
        from <= to <= cs@.len(),
    ensures
        r == (cs@.subrange(from as int, to as int) == s@),
{
    let sc = str_to_chars(s);
    if sc.len() != to - from {
        proof {
            assert(cs@.subrange(from as int, to as int).len() == to - from);
        }
        return false;
    }
    let mut i: usize = 0;
    while i < sc.len()
        invariant
            i <= sc@.len(),
            sc@ == s@,
            sc@.len() == to - from,
            from <= to <= cs@.len(),
            forall|j: int| 0 <= j < i ==> cs@.subrange(from as int, to as int)[j] == sc@[j],
        decreases sc@.len() - i,
    {
        if cs[from + i] != sc[i] {
            proof {
                assert(cs@.subrange(from as int, to as int)[i as int] == cs@[from + i]);
            }
            return false;
        }
        proof {
            assert(cs@.subrange(from as int, to as int)[i as int] == cs@[from + i]);
        }
        i = i + 1;
    }
    proof {
        assert(cs@.subrange(from as int, to as int) =~= sc@);
    }
    true
}

/// Index of the first occurrence of the character, or the length if absent.
pub open spec fn idx_of_char(s: Seq<char>, c: char) -> int
    decreases s.len(),
{
    if s.len() == 0 {
        0
    } else if s[0] == c {
        0
    } else {
        1 + idx_of_char(s.skip(1), c)
    }
}

pub proof fn lemma_idx_of_char(s: Seq<char>, c: char)
    ensures
        0 <= idx_of_char(s, c) <= s.len(),
        idx_of_char(s, c) < s.len() ==> s[idx_of_char(s, c)] == c,
        forall|j: int| 0 <= j < idx_of_char(s, c) ==> s[j] != c,
    decreases s.len(),
{
    if s.len() > 0 && s[0] != c {
        lemma_idx_of_char(s.skip(1), c);
        assert forall|j: int| 0 <= j < idx_of_char(s, c) implies s[j] != c by {
            if j > 0 {
                assert(s.skip(1)[j - 1] == s[j]);
            }
        }
    }
}

/// A position with no earlier occurrence, holding the character or at the
/// end, is the first occurrence's index.
pub proof fn lemma_idx_of_char_is(s: Seq<char>, c: char, d: int)
    requires
        0 <= d <= s.len(),
        forall|j: int| 0 <= j < d ==> s[j] != c,
        d == s.len() || s[d] == c,
    ensures
        idx_of_char(s, c) == d,
    decreases d,
{
    if d > 0 {
        assert(s[0] != c);
        assert forall|j: int| 0 <= j < d - 1 implies s.skip(1)[j] != c by {
            assert(s.skip(1)[j] == s[j + 1]);
        }
        if d < s.len() {
            assert(s.skip(1)[d - 1] == s[d]);
        }
        lemma_idx_of_char_is(s.skip(1), c, d - 1);
    }
}

} // verus!

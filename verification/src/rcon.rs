//! The rcon-line classifier: whether a remote-console command line is
//! forwarded, synchronised, or ignored.

use vstd::prelude::*;
use crate::emoji::is_space_char;
use crate::json::hex_val;
use crate::numtext::{all_digits, is_digit_char, parse_i64_chars, spec_digits_val, spec_parse_i64};
use crate::tasks::contains_string;
use crate::text::{chars_to_string, idx_of_char, lemma_idx_of_char, lemma_idx_of_char_is, str_to_chars, strs_view, subvec};
use crate::textops::{first_occ, lemma_first_occ_is, occurs_at};

verus! {

broadcast use vstd::seq::group_seq_axioms, vstd::std_specs::vec::group_vec_axioms;

/// The first index at or after `i` that is not white space, or the length.
pub open spec fn space_end(s: Seq<char>, i: int) -> int
    decreases s.len() - i,
{
    if i < 0 || i >= s.len() {
        s.len() as int
    } else if is_space_char(s[i]) {
        space_end(s, i + 1)
    } else {
        i
    }
}

/// The first index at or after `i` that is white space, or the length.
pub open spec fn word_end(s: Seq<char>, i: int) -> int
    decreases s.len() - i,
{
    if i < 0 || i >= s.len() {
        s.len() as int
    } else if !is_space_char(s[i]) {
        word_end(s, i + 1)
    } else {
        i
    }
}

proof fn lemma_space_end_is(s: Seq<char>, i: int, d: int)
    requires
        0 <= i <= d <= s.len(),
        forall|j: int| i <= j < d ==> is_space_char(s[j]),
        d == s.len() || !is_space_char(s[d]),
    ensures
        space_end(s, i) == d,
    decreases d - i,
{
    if i < d {
        lemma_space_end_is(s, i + 1, d);
    }
}

proof fn lemma_word_end_is(s: Seq<char>, i: int, d: int)
    requires
        0 <= i <= d <= s.len(),
        forall|j: int| i <= j < d ==> !is_space_char(s[j]),
        d == s.len() || is_space_char(s[d]),
    ensures
        word_end(s, i) == d,
    decreases d - i,
{
    if i < d {
        lemma_word_end_is(s, i + 1, d);
    }
}

/// One decimal octet of a dotted-quad address: up to three digits, no
/// leading zero, at most 255.
pub open spec fn is_dec_octet(s: Seq<char>) -> bool {
    &&& 1 <= s.len() <= 3
    &&& all_digits(s)
    &&& spec_digits_val(s) <= 255
    &&& (s.len() == 1 || s[0] != '0')
}

/// The remaining dot-separated parts of a dotted-quad address.
pub open spec fn is_ipv4_parts(s: Seq<char>, parts: nat) -> bool
    decreases parts,
{
    let d = crate::text::idx_of_char(s, '.');
    if parts <= 1 {
        d == s.len() && is_dec_octet(s)
    } else {
        d < s.len() && is_dec_octet(s.take(d)) && is_ipv4_parts(s.skip(d + 1), (parts - 1) as nat)
    }
}

/// A dotted-quad address text: four decimal octets separated by dots.
pub open spec fn is_ipv4_text(s: Seq<char>) -> bool {
    is_ipv4_parts(s, 4)
}

/// Whether the characters `[from, to)` form one decimal octet.
fn check_octet(cs: &Vec<char>, from: usize, to: usize) -> (r: bool)
    requires
        from <= to <= cs@.len(),
    ensures
        r == is_dec_octet(cs@.subrange(from as int, to as int)),
{
    let ghost part = cs@.subrange(from as int, to as int);
    let n = to - from;
    if n < 1 || n > 3 {
        return false;
    }
    let mut i: usize = 0;
    while i < n
        invariant
            i <= n,
            n == to - from,
            from <= to <= cs@.len(),
            part == cs@.subrange(from as int, to as int),
            forall|j: int| 0 <= j < i ==> is_digit_char(#[trigger] part[j]),
        decreases n - i,
    {
        let c = cs[from + i];
        proof {
            assert(part[i as int] == cs@[from + i]);
        }
        if !('0' <= c && c <= '9') {
            return false;
        }
        i = i + 1;
    }
    if n > 1 && cs[from] == '0' {
        proof {
            assert(part[0] == cs@[from as int]);
        }
        return false;
    }
    let piece = subvec(cs, from, to);
    match parse_i64_chars(&piece) {
        Some(v) => {
            proof {
                assert(part[0] != '-' && part[0] != '+');
                assert(spec_parse_i64(part) == Some(v));
            }
            v <= 255
        },
        None => {
            proof {
                assert(part[0] != '-' && part[0] != '+');
                assert(all_digits(part) && part.len() >= 1);
                crate::numtext::lemma_digits_val_lt_pow(part);
                assert(crate::numtext::pow10(0) == 1);
                assert(crate::numtext::pow10(1) == 10);
                assert(crate::numtext::pow10(2) == 100);
                assert(crate::numtext::pow10(3) == 1000);
                assert(false);
            }
            false
        },
    }
}

/// Whether the characters `[from, to)` form a dotted-quad address.
#[verifier::loop_isolation(false)]
fn check_ipv4(cs: &Vec<char>, from: usize, to: usize) -> (r: bool)
    requires
        from <= to <= cs@.len(),
    ensures
        r == is_ipv4_text(cs@.subrange(from as int, to as int)),
{
    check_ipv4_parts(cs, from, to, 4)
}

/// Whether the range splits into the given number of octets.
fn check_ipv4_parts(cs: &Vec<char>, from: usize, to: usize, parts: u32) -> (r: bool)
    requires
        from <= to <= cs@.len(),
        parts >= 1,
    ensures
        r == is_ipv4_parts(cs@.subrange(from as int, to as int), parts as nat),
    decreases parts,
{
    let ghost whole = cs@.subrange(from as int, to as int);
    let mut d: usize = from;
    while d < to && cs[d] != '.'
        invariant
            from <= d <= to,
            to <= cs@.len(),
            forall|j: int| from <= j < d ==> cs@[j] != '.',
        decreases to - d,
    {
        d = d + 1;
    }
    proof {
        assert forall|j: int| 0 <= j < d - from implies whole[j] != '.' by {
            assert(whole[j] == cs@[from + j]);
        }
        if d < to {
            assert(whole[d - from] == cs@[d as int]);
        }
        crate::text::lemma_idx_of_char_is(whole, '.', d - from);
    }
    if parts == 1 {
        if d != to {
            return false;
        }
        proof {
            assert(whole =~= cs@.subrange(from as int, to as int));
        }
        let r = check_octet(cs, from, to);
        proof {
            assert(whole.len() == to - from);
        }
        r
    } else {
        if d == to {
            return false;
        }
        if !check_octet(cs, from, d) {
            proof {
                assert(whole.take(d - from) =~= cs@.subrange(from as int, d as int));
            }
            return false;
        }
        proof {
            assert(whole.take(d - from) =~= cs@.subrange(from as int, d as int));
            assert(whole.skip(d - from + 1) =~= cs@.subrange(d + 1int, to as int));
        }
        check_ipv4_parts(cs, d + 1, to, parts - 1)
    }
}

/// One 16-bit group of an IPv6 address: one to four hexadecimal digits.
pub open spec fn is_h16(s: Seq<char>) -> bool {
    1 <= s.len() <= 4 && forall|i: int| 0 <= i < s.len() ==> hex_val(#[trigger] s[i]) < 16
}

/// The group count of one colon-separated side of an IPv6 address: each
/// hexadecimal group counts one, a trailing dotted quad counts two;
/// nothing when a part is malformed.
pub open spec fn ipv6_side_count(s: Seq<char>, allow_v4: bool) -> Option<int>
    decreases s.len(),
    via ipv6_side_count_decreases
{
    let d = idx_of_char(s, ':');
    if d == s.len() {
        if is_h16(s) {
            Some(1)
        } else if allow_v4 && is_ipv4_text(s) {
            Some(2)
        } else {
            None
        }
    } else if d == 0 {
        None
    } else if is_h16(s.take(d)) {
        match ipv6_side_count(s.skip(d + 1), allow_v4) {
            Some(c) => Some(1 + c),
            None => None,
        }
    } else {
        None
    }
}

#[via_fn]
proof fn ipv6_side_count_decreases(s: Seq<char>, allow_v4: bool) {
    lemma_idx_of_char(s, ':');
}

/// The double colon.
pub open spec fn double_colon() -> Seq<char> {
    seq![':', ':']
}

/// An IPv6 address text: eight groups, or one `::` eliding at least one
/// zero group, with an optional trailing dotted quad counting as two
/// groups.
pub open spec fn is_ipv6_text(s: Seq<char>) -> bool {
    let e = first_occ(s, double_colon());
    if e == -1 {
        ipv6_side_count(s, true) == Some(8int)
    } else {
        let left = s.take(e);
        let right = s.skip(e + 2);
        let lc = if left.len() == 0 {
            Some(0int)
        } else {
            ipv6_side_count(left, false)
        };
        let rc = if right.len() == 0 {
            Some(0int)
        } else {
            ipv6_side_count(right, true)
        };
        &&& first_occ(right, double_colon()) == -1
        &&& lc is Some
        &&& rc is Some
        &&& lc->0 + rc->0 <= 7
    }
}

/// An address text: the dotted-quad form or the IPv6 form.
pub open spec fn is_ip_text(s: Seq<char>) -> bool {
    is_ipv4_text(s) || is_ipv6_text(s)
}

/// A side's group count never outgrows its text.
proof fn lemma_side_count_bound(s: Seq<char>, allow_v4: bool)
    ensures
        match ipv6_side_count(s, allow_v4) {
            Some(c) => 1 <= c <= s.len() + 1,
            None => true,
        },
    decreases s.len(),
{
    lemma_idx_of_char(s, ':');
    let d = idx_of_char(s, ':');
    if d == s.len() {
        if !is_h16(s) && allow_v4 && is_ipv4_text(s) {
            assert(s.len() >= 1);
        }
    } else if d >= 1 && is_h16(s.take(d)) {
        lemma_side_count_bound(s.skip(d + 1), allow_v4);
    }
}

/// Whether the characters `[from, to)` form one hexadecimal group.
fn check_h16(cs: &Vec<char>, from: usize, to: usize) -> (r: bool)
    requires
        from <= to <= cs@.len(),
    ensures
        r == is_h16(cs@.subrange(from as int, to as int)),
{
    let ghost part = cs@.subrange(from as int, to as int);
    let n = to - from;
    if n < 1 || n > 4 {
        return false;
    }
    let mut i: usize = 0;
    while i < n
        invariant
            i <= n,
            n == to - from,
            from <= to <= cs@.len(),
            part == cs@.subrange(from as int, to as int),
            forall|j: int| 0 <= j < i ==> hex_val(#[trigger] part[j]) < 16,
        decreases n - i,
    {
        let c = cs[from + i];
        proof {
            assert(part[i as int] == cs@[from + i]);
        }
        if !(('0' <= c && c <= '9') || ('a' <= c && c <= 'f') || ('A' <= c && c <= 'F')) {
            return false;
        }
        i = i + 1;
    }
    true
}

/// The group count of the characters `[from, to)` as one side of an
/// IPv6 address.
#[verifier::loop_isolation(false)]
fn check_side(cs: &Vec<char>, from: usize, to: usize, allow_v4: bool) -> (r: Option<u64>)
    requires
        from <= to <= cs@.len(),
    ensures
        match r {
            Some(c) => ipv6_side_count(cs@.subrange(from as int, to as int), allow_v4) == Some(
                c as int,
            ),
            None => ipv6_side_count(cs@.subrange(from as int, to as int), allow_v4) is None,
        },
    decreases to - from,
{
    let ghost side = cs@.subrange(from as int, to as int);
    let mut d: usize = from;
    while d < to && cs[d] != ':'
        invariant
            from <= d <= to,
            to <= cs@.len(),
            forall|j: int| from <= j < d ==> cs@[j] != ':',
        decreases to - d,
    {
        d = d + 1;
    }
    proof {
        assert forall|j: int| 0 <= j < d - from implies side[j] != ':' by {
            assert(side[j] == cs@[from + j]);
        }
        if d < to {
            assert(side[d - from] == cs@[d as int]);
        }
        lemma_idx_of_char_is(side, ':', d - from);
    }
    if d == to {
        if check_h16(cs, from, to) {
            proof {
                assert(side =~= cs@.subrange(from as int, to as int));
            }
            Some(1)
        } else if allow_v4 && check_ipv4(cs, from, to) {
            Some(2)
        } else {
            None
        }
    } else if d == from {
        None
    } else if check_h16(cs, from, d) {
        proof {
            assert(side.take(d - from) =~= cs@.subrange(from as int, d as int));
            assert(side.skip(d - from + 1) =~= cs@.subrange(d + 1int, to as int));
        }
        match check_side(cs, d + 1, to, allow_v4) {
            Some(c) => {
                proof {
                    lemma_side_count_bound(cs@.subrange(d + 1int, to as int), allow_v4);
                }
                Some(1 + c)
            },
            None => None,
        }
    } else {
        proof {
            assert(side.take(d - from) =~= cs@.subrange(from as int, d as int));
        }
        None
    }
}

/// The first `::` in the characters `[from, to)`, if any.
fn find_double_colon(cs: &Vec<char>, from: usize, to: usize) -> (r: Option<usize>)
    requires
        from <= to <= cs@.len(),
    ensures
        ({
            let side = cs@.subrange(from as int, to as int);
            match r {
                Some(e) => from <= e && e + 2 <= to && first_occ(side, double_colon()) == e - from,
                None => first_occ(side, double_colon()) == -1,
            }
        }),
{
    let ghost side = cs@.subrange(from as int, to as int);
    let n = to - from;
    if n < 2 {
        proof {
            lemma_first_occ_is(side, double_colon(), 0);
        }
        return None;
    }
    let mut i: usize = from;
    while i < to - 1
        invariant
            from <= i <= to - 1,
            2 <= to - from,
            to <= cs@.len(),
            side == cs@.subrange(from as int, to as int),
            forall|j: int| 0 <= j < i - from ==> !occurs_at(side, double_colon(), j),
        decreases to - i,
    {
        if cs[i] == ':' && cs[i + 1] == ':' {
            proof {
                assert(side.subrange(i - from, i - from + 2) =~= double_colon());
                lemma_first_occ_is(side, double_colon(), i - from);
            }
            return Some(i);
        }
        proof {
            if occurs_at(side, double_colon(), i - from) {
                assert(side.subrange(i - from, i - from + 2)[0] == side[i - from]);
                assert(side.subrange(i - from, i - from + 2)[1] == side[i - from + 1]);
                assert(side[i - from] == cs@[i as int]);
                assert(side[i - from + 1] == cs@[i + 1]);
            }
        }
        i = i + 1;
    }
    proof {
        assert forall|j: int| 0 <= j < side.len() - 1 implies !occurs_at(
            side,
            double_colon(),
            j,
        ) by {
            assert(j < i - from || j >= i - from);
        }
        lemma_first_occ_is(side, double_colon(), side.len() - 1);
    }
    None
}

/// Whether the characters `[from, to)` form an IPv6 address text.
#[verifier::loop_isolation(false)]
fn check_ipv6(cs: &Vec<char>, from: usize, to: usize) -> (r: bool)
    requires
        from <= to <= cs@.len(),
    ensures
        r == is_ipv6_text(cs@.subrange(from as int, to as int)),
{
    let ghost side = cs@.subrange(from as int, to as int);
    match find_double_colon(cs, from, to) {
        None => {
            match check_side(cs, from, to, true) {
                Some(c) => {
                    proof {
                        assert(side =~= cs@.subrange(from as int, to as int));
                    }
                    c == 8
                },
                None => false,
            }
        },
        Some(e) => {
            proof {
                assert(side.take(e - from) =~= cs@.subrange(from as int, e as int));
                assert(side.skip(e - from + 2) =~= cs@.subrange(e + 2int, to as int));
            }
            match find_double_colon(cs, e + 2, to) {
                Some(_) => false,
                None => {
                    let lc: u64 = if e == from {
                        0
                    } else {
                        match check_side(cs, from, e, false) {
                            Some(c) => c,
                            None => {
                                return false;
                            },
                        }
                    };
                    let rc: u64 = if e + 2 == to {
                        0
                    } else {
                        match check_side(cs, e + 2, to, true) {
                            Some(c) => c,
                            None => {
                                return false;
                            },
                        }
                    };
                    proof {
                        if e > from {
                            lemma_side_count_bound(cs@.subrange(from as int, e as int), false);
                        }
                        if e + 2 < to {
                            lemma_side_count_bound(cs@.subrange(e + 2int, to as int), true);
                        }
                    }
                    lc + rc <= 7
                },
            }
        },
    }
}

/// Whether the characters `[from, to)` form an address text.
fn check_ip(cs: &Vec<char>, from: usize, to: usize) -> (r: bool)
    requires
        from <= to <= cs@.len(),
    ensures
        r == is_ip_text(cs@.subrange(from as int, to as int)),
{
    if check_ipv4(cs, from, to) {
        true
    } else {
        check_ipv6(cs, from, to)
    }
}

/// One classified rcon line.
pub struct RconData {
    pub text: Option<String>,
    pub sync: bool,
    pub log: bool,
}

impl Default for RconData {
    /// The ignored line: no text, nothing to synchronise or log.
    fn default() -> (r: RconData)
        ensures
            r.text is None && !r.sync && !r.log,
    {
        RconData { text: None, sync: false, log: false }
    }
}

/// Classify one rcon command line: its first word decides whether it is
/// synchronised or logged, and it is forwarded only when its second word
/// is an address text, dotted-quad or IPv6.
#[verifier::loop_isolation(false)]
pub fn process_rcon(rcon: &str, commands_sync: &Vec<String>, commands_log: &Vec<String>) -> (r:
    RconData)
    ensures
        ({
            let s = rcon@;
            let a1 = space_end(s, 0);
            let b1 = word_end(s, a1);
            let a2 = space_end(s, b1);
            let b2 = word_end(s, a2);
            if s.len() == 0 || a1 >= s.len() || a2 >= s.len() || !is_ip_text(
                s.subrange(a2, b2),
            ) {
                r.text is None && !r.sync && !r.log
            } else {
                &&& r.text matches Some(t) && t@ == s
                &&& r.sync == strs_view(commands_sync@).contains(s.subrange(a1, b1))
                &&& r.log == strs_view(commands_log@).contains(s.subrange(a1, b1))
            }
        }),
{
    let cs = str_to_chars(rcon);
    let n = cs.len();
    if n == 0 {
        return RconData { text: None, sync: false, log: false };
    }
    let mut a1: usize = 0;
    while a1 < n && is_space(cs[a1])
        invariant
            a1 <= n,
            forall|j: int| 0 <= j < a1 ==> is_space_char(cs@[j]),
        decreases n - a1,
    {
        a1 = a1 + 1;
    }
    proof {
        lemma_space_end_is(cs@, 0, a1 as int);
    }
    if a1 >= n {
        return RconData { text: None, sync: false, log: false };
    }
    let mut b1: usize = a1;
    while b1 < n && !is_space(cs[b1])
        invariant
            a1 <= b1 <= n,
            forall|j: int| a1 <= j < b1 ==> !is_space_char(cs@[j]),
        decreases n - b1,
    {
        b1 = b1 + 1;
    }
    proof {
        lemma_word_end_is(cs@, a1 as int, b1 as int);
    }
    let first = subvec(&cs, a1, b1);
    let first_s = chars_to_string(&first);
    let sync = contains_string(commands_sync, &first_s);
    let log = contains_string(commands_log, &first_s);
    let mut a2: usize = b1;
    while a2 < n && is_space(cs[a2])
        invariant
            b1 <= a2 <= n,
            forall|j: int| b1 <= j < a2 ==> is_space_char(cs@[j]),
        decreases n - a2,
    {
        a2 = a2 + 1;
    }
    proof {
        lemma_space_end_is(cs@, b1 as int, a2 as int);
    }
    if a2 >= n {
        return RconData { text: None, sync: false, log: false };
    }
    let mut b2: usize = a2;
    while b2 < n && !is_space(cs[b2])
        invariant
            a2 <= b2 <= n,
            forall|j: int| a2 <= j < b2 ==> !is_space_char(cs@[j]),
        decreases n - b2,
    {
        b2 = b2 + 1;
    }
    proof {
        lemma_word_end_is(cs@, a2 as int, b2 as int);
    }
    if check_ip(&cs, a2, b2) {
        RconData { text: Some(rcon.to_owned()), sync, log }
    } else {
        RconData { text: None, sync: false, log: false }
    }
}

/// Whether the character is white space.
fn is_space(c: char) -> (r: bool)
    ensures
        r == is_space_char(c),
{
    c == ' ' || c == '\t' || c == '\n' || c == '\r' || c == '\u{000B}' || c == '\u{000C}' || c
        == '\u{0085}' || c == '\u{00A0}' || c == '\u{1680}' || ('\u{2000}' <= c && c <= '\u{200A}')
        || c == '\u{2028}' || c == '\u{2029}' || c == '\u{202F}' || c == '\u{205F}' || c
        == '\u{3000}'
}

} // verus!

//! The emoji table: ordered (symbol, name) pairs parsed from a resource
//! text, and substitution in both directions, applied in declared order.

use vstd::prelude::*;
use crate::text::{chars_to_string, idx_of_char, lemma_idx_of_char_is, str_to_chars, subvec};
use crate::textops::{replace_all_chars, spec_replace_all};

verus! {

broadcast use vstd::seq::group_seq_axioms, vstd::std_specs::vec::group_vec_axioms;

/// The white-space characters that trimming strips: Unicode's white-space
/// set, as `str::trim` uses it.
pub open spec fn is_space_char(c: char) -> bool {
    ||| c == ' '
    ||| c == '\t'
    ||| c == '\n'
    ||| c == '\r'
    ||| c == '\u{000B}'
    ||| c == '\u{000C}'
    ||| c == '\u{0085}'
    ||| c == '\u{00A0}'
    ||| c == '\u{1680}'
    ||| ('\u{2000}' <= c && c <= '\u{200A}')
    ||| c == '\u{2028}'
    ||| c == '\u{2029}'
    ||| c == '\u{202F}'
    ||| c == '\u{205F}'
    ||| c == '\u{3000}'
}

/// Index of the first character that is not white space.
pub open spec fn trim_start_idx(s: Seq<char>) -> int
    decreases s.len(),
{
    if s.len() == 0 {
        0
    } else if !is_space_char(s[0]) {
        0
    } else {
        1 + trim_start_idx(s.skip(1))
    }
}

/// Index one past the last character that is not white space.
pub open spec fn trim_end_idx(s: Seq<char>) -> int
    decreases s.len(),
{
    if s.len() == 0 {
        0
    } else if !is_space_char(s.last()) {
        s.len() as int
    } else {
        trim_end_idx(s.take(s.len() - 1))
    }
}

/// The text with leading and trailing white space removed.
pub open spec fn spec_trim(s: Seq<char>) -> Seq<char> {
    let b = trim_start_idx(s);
    let e = trim_end_idx(s);
    if b <= e {
        s.subrange(b, e)
    } else {
        Seq::empty()
    }
}

pub proof fn lemma_trim_start_is(s: Seq<char>, d: int)
    requires
        0 <= d <= s.len(),
        forall|j: int| 0 <= j < d ==> is_space_char(s[j]),
        d == s.len() || !is_space_char(s[d]),
    ensures
        trim_start_idx(s) == d,
    decreases d,
{
    if d > 0 {
        assert forall|j: int| 0 <= j < d - 1 implies is_space_char(s.skip(1)[j]) by {
            assert(s.skip(1)[j] == s[j + 1]);
        }
        if d < s.len() {
            assert(s.skip(1)[d - 1] == s[d]);
        }
        lemma_trim_start_is(s.skip(1), d - 1);
    }
}

pub proof fn lemma_trim_end_is(s: Seq<char>, d: int)
    requires
        0 <= d <= s.len(),
        forall|j: int| d <= j < s.len() ==> is_space_char(s[j]),
        d == 0 || !is_space_char(s[d - 1]),
    ensures
        trim_end_idx(s) == d,
    decreases s.len() - d,
{
    if d < s.len() {
        assert(is_space_char(s.last()));
        assert forall|j: int| d <= j < s.take(s.len() - 1).len() implies is_space_char(
            #[trigger] s.take(s.len() - 1)[j],
        ) by {
            assert(s.take(s.len() - 1)[j] == s[j]);
        }
        if d > 0 {
            assert(s.take(s.len() - 1)[d - 1] == s[d - 1]);
        }
        lemma_trim_end_is(s.take(s.len() - 1), d);
    }
}

/// Strip leading and trailing white space, as `str::trim` does.
pub fn trim_chars(cs: &Vec<char>) -> (r: Vec<char>)
    ensures
        r@ == spec_trim(cs@),
{
    let n = cs.len();
    let mut b: usize = 0;
    while b < n && is_space_exec(cs[b])
        invariant
            b <= n,
            n == cs@.len(),
            forall|j: int| 0 <= j < b ==> is_space_char(cs@[j]),
        decreases n - b,
    {
        b = b + 1;
    }
    proof {
        lemma_trim_start_is(cs@, b as int);
    }
    let mut e: usize = n;
    while e > b && is_space_exec(cs[e - 1])
        invariant
            b <= e <= n,
            n == cs@.len(),
            forall|j: int| e <= j < n ==> is_space_char(cs@[j]),
        decreases e,
    {
        e = e - 1;
    }
    if e == b {
        proof {
            if b < n {
                assert(is_space_char(cs@[b as int]));
                assert(!is_space_char(cs@[b as int]));
            }
            assert(b == n);
            lemma_trim_end_is(cs@, 0);
            assert(Seq::<char>::empty() =~= spec_trim(cs@));
        }
        return Vec::new();
    }
    proof {
        assert(!is_space_char(cs@[e - 1]));
        lemma_trim_end_is(cs@, e as int);
    }
    subvec(cs, b, e)
}

/// Whether the character is trimmed white space.
fn is_space_exec(c: char) -> (r: bool)
    ensures
        r == is_space_char(c),
{
    c == ' ' || c == '\t' || c == '\n' || c == '\r' || c == '\u{000B}' || c == '\u{000C}' || c
        == '\u{0085}' || c == '\u{00A0}' || c == '\u{1680}' || ('\u{2000}' <= c && c <= '\u{200A}')
        || c == '\u{2028}' || c == '\u{2029}' || c == '\u{202F}' || c == '\u{205F}' || c
        == '\u{3000}'
}

/// One symbol-to-name pair of the table.
pub struct Emoji {
    pub symbol: String,
    pub name: String,
}

/// The ordered emoji table.
pub struct EmojiCollection {
    emojis: Vec<Emoji>,
}

/// The table's view: the (symbol, name) character pairs in order.
pub open spec fn emojis_view(s: Seq<Emoji>) -> Seq<(Seq<char>, Seq<char>)>
    decreases s,
{
    if s.len() == 0 {
        Seq::empty()
    } else {
        seq![(s[0].symbol@, s[0].name@)] + emojis_view(s.skip(1))
    }
}

pub proof fn lemma_emojis_view_snoc(s: Seq<Emoji>)
    requires
        s.len() > 0,
    ensures
        emojis_view(s) == emojis_view(s.take(s.len() - 1)).push(
            (s.last().symbol@, s.last().name@),
        ),
    decreases s,
{
    if s.len() == 1 {
        assert(s.take(0) =~= Seq::<Emoji>::empty());
        assert(s.skip(1) =~= Seq::<Emoji>::empty());
        assert(emojis_view(s) =~= emojis_view(s.take(0)).push((s.last().symbol@, s.last().name@)));
    } else {
        lemma_emojis_view_snoc(s.skip(1));
        assert(s.skip(1).take(s.skip(1).len() - 1) =~= s.take(s.len() - 1).skip(1));
        assert(s.skip(1).last() == s.last());
        assert(s.take(s.len() - 1)[0] == s[0]);
        assert(emojis_view(s) =~= emojis_view(s.take(s.len() - 1)).push(
            (s.last().symbol@, s.last().name@),
        ));
    }
}

/// One line parsed: the text before the first comma and the text after
/// it, both trimmed; nothing without a comma or with an empty side.
pub open spec fn spec_parse_emoji_line(s: Seq<char>) -> Option<(Seq<char>, Seq<char>)> {
    let d = idx_of_char(s, ',');
    if d == s.len() {
        None
    } else {
        let symbol = spec_trim(s.take(d));
        let name = spec_trim(s.skip(d + 1));
        if symbol.len() == 0 || name.len() == 0 {
            None
        } else {
            Some((symbol, name))
        }
    }
}

/// The table parsed from the resource text: one line per pair, split at
/// line feeds, unparseable lines skipped.
pub open spec fn spec_emoji_table(s: Seq<char>) -> Seq<(Seq<char>, Seq<char>)>
    decreases s.len(),
    via spec_emoji_table_decreases
{
    let d = idx_of_char(s, '\n');
    let line = (match spec_parse_emoji_line(s.take(d)) {
        Some(p) => seq![p],
        None => Seq::<(Seq<char>, Seq<char>)>::empty(),
    });
    if d == s.len() {
        line
    } else {
        line + spec_emoji_table(s.skip(d + 1))
    }
}

#[via_fn]
proof fn spec_emoji_table_decreases(s: Seq<char>) {
    crate::text::lemma_idx_of_char(s, '\n');
}

/// The text with every table entry substituted in order: for each pair,
/// every occurrence of the pattern side becomes the other side. Entries
/// with an empty pattern substitute nothing.
pub open spec fn spec_substitute(
    s: Seq<char>,
    table: Seq<(Seq<char>, Seq<char>)>,
    forward: bool,
) -> Seq<char>
    decreases table.len(),
{
    if table.len() == 0 {
        s
    } else {
        let pat = if forward {
            table[0].0
        } else {
            table[0].1
        };
        let to = if forward {
            table[0].1
        } else {
            table[0].0
        };
        let next = if pat.len() == 0 {
            s
        } else {
            spec_replace_all(s, pat, to)
        };
        spec_substitute(next, table.skip(1), forward)
    }
}

impl EmojiCollection {
    /// The table's pairs.
    pub closed spec fn table(&self) -> Seq<(Seq<char>, Seq<char>)> {
        emojis_view(self.emojis@)
    }

    /// Parse the table from the resource text, one `symbol,name` line at
    /// a time; lines without both sides are skipped.
    pub fn new(data: &str) -> (r: Self)
        ensures
            r.table() == spec_emoji_table(data@),
    {
        let cs = str_to_chars(data);
        let n = cs.len();
        let mut emojis: Vec<Emoji> = Vec::new();
        let mut pos: usize = 0;
        let mut done: bool = false;
        proof {
            assert(cs@.skip(0) =~= cs@);
        }
        while !done
            invariant
                pos <= n,
                n == cs@.len(),
                cs@ == data@,
                !done ==> spec_emoji_table(cs@) == emojis_view(emojis@) + spec_emoji_table(
                    cs@.skip(pos as int),
                ),
                done ==> emojis_view(emojis@) == spec_emoji_table(cs@),
            decreases n - pos + 1, (if done {
                0int
            } else {
                1int
            }),
        {
            let ghost suf = cs@.skip(pos as int);
            let mut d: usize = pos;
            while d < n && cs[d] != '\n'
                invariant
                    pos <= d <= n,
                    n == cs@.len(),
                    forall|j: int| pos <= j < d ==> cs@[j] != '\n',
                decreases n - d,
            {
                d = d + 1;
            }
            proof {
                assert forall|j: int| 0 <= j < d - pos implies suf[j] != '\n' by {
                    assert(suf[j] == cs@[pos + j]);
                }
                if d < n {
                    assert(suf[d - pos] == cs@[d as int]);
                }
                lemma_idx_of_char_is(suf, '\n', d - pos);
                assert(suf.take(d - pos) =~= cs@.subrange(pos as int, d as int));
            }
            match Self::parse_emoji_line_range(&cs, pos, d) {
                Some(pair) => {
                    let ghost before = emojis@;
                    emojis.push(Emoji { symbol: pair.0, name: pair.1 });
                    proof {
                        lemma_emojis_view_snoc(emojis@);
                        assert(emojis@.take(emojis@.len() - 1) =~= before);
                    }
                },
                None => {
                },
            }
            if d == n {
                done = true;
                proof {
                    assert(emojis_view(emojis@) =~= spec_emoji_table(cs@));
                }
            } else {
                proof {
                    assert(suf.skip(d - pos + 1) =~= cs@.skip(d + 1int));
                    assert(emojis_view(emojis@) + spec_emoji_table(cs@.skip(d + 1int))
                        =~= spec_emoji_table(cs@));
                }
                pos = d + 1;
            }
        }
        EmojiCollection { emojis }
    }

    /// Parse one line held in the character range `[from, to)`.
    fn parse_emoji_line_range(cs: &Vec<char>, from: usize, to: usize) -> (r: Option<
        (String, String),
    >)
        requires
            from <= to <= cs@.len(),
        ensures
            match r {
                Some(p) => spec_parse_emoji_line(cs@.subrange(from as int, to as int)) == Some(
                    (p.0@, p.1@),
                ),
                None => spec_parse_emoji_line(cs@.subrange(from as int, to as int)) is None,
            },
    {
        let ghost line = cs@.subrange(from as int, to as int);
        let mut d: usize = from;
        while d < to && cs[d] != ','
            invariant
                from <= d <= to,
                to <= cs@.len(),
                forall|j: int| from <= j < d ==> cs@[j] != ',',
            decreases to - d,
        {
            d = d + 1;
        }
        proof {
            assert forall|j: int| 0 <= j < d - from implies line[j] != ',' by {
                assert(line[j] == cs@[from + j]);
            }
            if d < to {
                assert(line[d - from] == cs@[d as int]);
            }
            lemma_idx_of_char_is(line, ',', d - from);
        }
        if d == to {
            return None;
        }
        let head = subvec(cs, from, d);
        let tail = subvec(cs, d + 1, to);
        proof {
            assert(line.take(d - from) =~= cs@.subrange(from as int, d as int));
            assert(line.skip(d - from + 1) =~= cs@.subrange(d + 1int, to as int));
        }
        let symbol = trim_chars(&head);
        let name = trim_chars(&tail);
        if symbol.len() == 0 || name.len() == 0 {
            return None;
        }
        Some((chars_to_string(&symbol), chars_to_string(&name)))
    }

    /// Substitute every symbol by its name, in table order.
    pub fn replace_symbols_with_names(&self, text: String) -> (r: String)
        ensures
            r@ == spec_substitute(text@, self.table(), true),
    {
        substitute(self, text, true)
    }
}

/// Substitute through the whole table, symbol-to-name or name-to-symbol.
fn substitute(c: &EmojiCollection, text: String, forward: bool) -> (r: String)
    ensures
        r@ == spec_substitute(text@, c.table(), forward),
{
    let ghost table = c.table();
    proof {
        lemma_emojis_view_len(c.emojis@);
    }
    let mut cur = str_to_chars(text.as_str());
    proof {
        assert(table.skip(0) =~= table);
    }
    let mut i: usize = 0;
    while i < c.emojis.len()
        invariant
            i <= c.emojis@.len(),
            table == emojis_view(c.emojis@),
            table.len() == c.emojis@.len(),
            spec_substitute(text@, table, forward) == spec_substitute(
                cur@,
                table.skip(i as int),
                forward,
            ),
        decreases c.emojis@.len() - i,
    {
        proof {
            lemma_emojis_view_index(c.emojis@, i as int);
            assert(table.skip(i as int)[0] == table[i as int]);
            assert(table.skip(i as int).skip(1) =~= table.skip(i + 1int));
        }
        let pat = if forward {
            str_to_chars(c.emojis[i].symbol.as_str())
        } else {
            str_to_chars(c.emojis[i].name.as_str())
        };
        let to = if forward {
            str_to_chars(c.emojis[i].name.as_str())
        } else {
            str_to_chars(c.emojis[i].symbol.as_str())
        };
        if pat.len() > 0 {
            cur = replace_all_chars(&cur, &pat, &to);
        }
        i = i + 1;
    }
    proof {
        assert(table.skip(table.len() as int) =~= Seq::<(Seq<char>, Seq<char>)>::empty());
    }
    chars_to_string(&cur)
}

pub proof fn lemma_emojis_view_len(s: Seq<Emoji>)
    ensures
        emojis_view(s).len() == s.len(),
    decreases s,
{
    if s.len() > 0 {
        lemma_emojis_view_len(s.skip(1));
    }
}

pub proof fn lemma_emojis_view_index(s: Seq<Emoji>, i: int)
    requires
        0 <= i < s.len(),
    ensures
        emojis_view(s)[i] == (s[i].symbol@, s[i].name@),
    decreases s,
{
    lemma_emojis_view_len(s);
    if i > 0 {
        lemma_emojis_view_index(s.skip(1), i - 1);
    }
}

/// Substitute every symbol by its name, in table order.
pub fn replace_to_emoji(c: &EmojiCollection, text: String) -> (r: String)
    ensures
        r@ == spec_substitute(text@, c.table(), true),
{
    substitute(c, text, true)
}

/// Substitute every name by its symbol, in table order.
pub fn replace_from_emoji(c: &EmojiCollection, text: String) -> (r: String)
    ensures
        r@ == spec_substitute(text@, c.table(), false),
{
    substitute(c, text, false)
}

} // verus!

//! Compiled regular expressions behind trusted wrappers, and the text
//! rewriting built on them.

use vstd::prelude::*;
use crate::text::{chars_to_string, str_to_chars};
use crate::textops::{replace_first_chars, spec_replace_first};

verus! {

broadcast use vstd::seq::group_seq_axioms, vstd::std_specs::vec::group_vec_axioms;

#[verifier::external_type_specification]
#[verifier::external_body]
pub struct ExRegex(regex::Regex);

/// Whether a pattern is a valid regular expression: what `regex::Regex::new`
/// accepts. Compilation success depends on the pattern text alone.
pub uninterp spec fn regex_ok(pattern: Seq<char>) -> bool;

/// The capture groups of the leftmost match of the pattern in the text:
/// nothing when the pattern does not match, otherwise one entry per group
/// with the unmatched optional groups absent. A function of the pattern
/// and the text alone.
pub uninterp spec fn spec_captures(pattern: Seq<char>, text: Seq<char>) -> Option<
    Seq<Option<Seq<char>>>,
>;

/// The views of an optional-string list, element by element.
pub open spec fn opts_view(s: Seq<Option<String>>) -> Seq<Option<Seq<char>>>
    decreases s,
{
    if s.len() == 0 {
        Seq::empty()
    } else {
        seq![match s[0] {
            Some(t) => Some(t@),
            None => None,
        }] + opts_view(s.skip(1))
    }
}

pub proof fn lemma_opts_view_len(s: Seq<Option<String>>)
    ensures
        opts_view(s).len() == s.len(),
    decreases s,
{
    if s.len() > 0 {
        lemma_opts_view_len(s.skip(1));
    }
}

pub proof fn lemma_opts_view_index(s: Seq<Option<String>>, i: int)
    requires
        0 <= i < s.len(),
    ensures
        opts_view(s)[i] == (match s[i] {
            Some(t) => Some(t@),
            None => None,
        }),
    decreases s,
{
    lemma_opts_view_len(s);
    if i > 0 {
        lemma_opts_view_index(s.skip(1), i - 1);
    }
}

/// A compiled regular expression together with the pattern text it was
/// compiled from.
pub struct Pattern {
    src: String,
    re: regex::Regex,
}

impl Pattern {
    /// The pattern text this regular expression was compiled from.
    pub closed spec fn src_spec(&self) -> Seq<char> {
        self.src@
    }

    /// Relies on regex::Regex::new: compiles the pattern, succeeding exactly
    /// when the pattern is valid regex syntax.
    #[verifier::external_body]
    pub fn compile(pattern: &str) -> (r: Option<Pattern>)
        ensures
            r is Some <==> regex_ok(pattern@),
            r is Some ==> r.unwrap().src_spec() == pattern@,
    {
        match regex::Regex::new(pattern) {
            Ok(re) => Some(Pattern { src: pattern.to_string(), re }),
            Err(_) => None,
        }
    }

    /// Relies on regex::Regex::captures: the leftmost match's groups, a
    /// function of the pattern and the text alone; group 0, the whole
    /// match, is present whenever there is a match.
    #[verifier::external_body]
    pub fn captures(&self, text: &str) -> (r: Option<Vec<Option<String>>>)
        ensures
            match r {
                Some(v) => spec_captures(self.src_spec(), text@) == Some(opts_view(v@))
                    && v@.len() >= 1 && v@[0] is Some,
                None => spec_captures(self.src_spec(), text@) is None,
            },
    {
        self.re.captures(text).map(
            |c| c.iter().map(|m| m.map(|g| g.as_str().to_string())).collect(),
        )
    }
}

/// The pattern texts and replacement texts of a rule list.
pub open spec fn rules_view(s: Seq<(Pattern, String)>) -> Seq<(Seq<char>, Seq<char>)>
    decreases s,
{
    if s.len() == 0 {
        Seq::empty()
    } else {
        seq![(s[0].0.src_spec(), s[0].1@)] + rules_view(s.skip(1))
    }
}

pub proof fn lemma_rules_view_len(s: Seq<(Pattern, String)>)
    ensures
        rules_view(s).len() == s.len(),
    decreases s,
{
    if s.len() > 0 {
        lemma_rules_view_len(s.skip(1));
    }
}

pub proof fn lemma_rules_view_index(s: Seq<(Pattern, String)>, i: int)
    requires
        0 <= i < s.len(),
    ensures
        rules_view(s)[i] == (s[i].0.src_spec(), s[i].1@),
    decreases s,
{
    lemma_rules_view_len(s);
    if i > 0 {
        lemma_rules_view_index(s.skip(1), i - 1);
    }
}

/// One rewrite step: where the rule's pattern matches the text and its
/// first capture group took part, that group's text is replaced once by
/// the rule's replacement; otherwise the text stays.
pub open spec fn spec_regex_step(s: Seq<char>, pattern: Seq<char>, to: Seq<char>) -> Seq<char> {
    match spec_captures(pattern, s) {
        None => s,
        Some(gs) => if gs.len() > 1 && gs[1] is Some {
            spec_replace_first(s, gs[1]->0, to)
        } else {
            s
        },
    }
}

/// The text rewritten through every rule in order.
pub open spec fn spec_format_regex(s: Seq<char>, rules: Seq<(Seq<char>, Seq<char>)>) -> Seq<char>
    decreases rules.len(),
{
    if rules.len() == 0 {
        s
    } else {
        spec_format_regex(spec_regex_step(s, rules[0].0, rules[0].1), rules.skip(1))
    }
}

/// Rewrite the text through each rule in order: where a rule matches, its
/// first capture group's text is replaced once by the rule's replacement.
#[verifier::loop_isolation(false)]
pub fn format_regex(text: String, regex_vec: Vec<(Pattern, String)>) -> (r: String)
    ensures
        r@ == spec_format_regex(text@, rules_view(regex_vec@)),
{
    let ghost rules = rules_view(regex_vec@);
    proof {
        lemma_rules_view_len(regex_vec@);
        assert(rules.skip(0) =~= rules);
    }
    let mut cur = text;
    let mut i: usize = 0;
    while i < regex_vec.len()
        invariant
            i <= regex_vec@.len(),
            spec_format_regex(text@, rules) == spec_format_regex(cur@, rules.skip(i as int)),
        decreases regex_vec@.len() - i,
    {
        proof {
            lemma_rules_view_index(regex_vec@, i as int);
            assert(rules.skip(i as int)[0] == rules[i as int]);
            assert(rules.skip(i as int).skip(1) =~= rules.skip(i + 1int));
        }
        match regex_vec[i].0.captures(cur.as_str()) {
            None => {},
            Some(caps) => {
                if caps.len() > 1 {
                    let one = match &caps[1] {
                        Some(g) => Some(g.clone()),
                        None => None,
                    };
                    match one {
                        Some(g) => {
                            proof {
                                lemma_opts_view_index(caps@, 1);
                                lemma_opts_view_len(caps@);
                            }
                            let cs = str_to_chars(cur.as_str());
                            let pat = str_to_chars(g.as_str());
                            let to = str_to_chars(regex_vec[i].1.as_str());
                            let next = replace_first_chars(&cs, &pat, &to);
                            cur = chars_to_string(&next);
                        },
                        None => {
                            proof {
                                lemma_opts_view_index(caps@, 1);
                                lemma_opts_view_len(caps@);
                            }
                        },
                    }
                } else {
                    proof {
                        lemma_opts_view_len(caps@);
                    }
                }
            },
        }
        i = i + 1;
    }
    proof {
        assert(rules.skip(rules.len() as int) =~= Seq::<(Seq<char>, Seq<char>)>::empty());
    }
    cur
}

} // verus!

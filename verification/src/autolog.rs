//! The log-line classifier: capture sets from the built-in log patterns
//! become structured records with an optional parsed timestamp.

use vstd::prelude::*;

verus! {

broadcast use vstd::seq::group_seq_axioms, vstd::std_specs::vec::group_vec_axioms;

/// The seconds since the epoch that a `%Y-%m-%d %H:%M:%S` timestamp text
/// denotes, or nothing when the text does not parse. A function of the
/// text alone.
pub uninterp spec fn spec_parse_log_timestamp(s: Seq<char>) -> Option<int>;

/// Relies on chrono's NaiveDateTime::parse_from_str with the format
/// `%Y-%m-%d %H:%M:%S` and on and_utc().timestamp(): the parsed moment
/// as seconds since the epoch, a function of the text alone.
#[verifier::external_body]
fn parse_log_timestamp(s: &str) -> (r: Option<i64>)
    ensures
        match r {
            Some(t) => spec_parse_log_timestamp(s@) == Some(t as int),
            None => spec_parse_log_timestamp(s@) is None,
        },
{
    chrono::NaiveDateTime::parse_from_str(s, "%Y-%m-%d %H:%M:%S").map(
        |d| d.and_utc().timestamp(),
    ).ok()
}

/// One classified log line.
pub struct LogRecord {
    pub timestamp: Option<i64>,
    pub text: String,
    pub logging_level: String,
    pub logging_name: String,
}

/// The capture at the index, or the empty string where the group did not
/// match or is out of range.
pub open spec fn spec_cap_or_empty(gs: Seq<Option<Seq<char>>>, i: int) -> Seq<char> {
    if 0 <= i < gs.len() {
        match gs[i] {
            Some(t) => t,
            None => Seq::empty(),
        }
    } else {
        Seq::empty()
    }
}

fn cap_or_empty(caps: &Vec<Option<String>>, i: usize) -> (r: String)
    ensures
        r@ == spec_cap_or_empty(crate::rx::opts_view(caps@), i as int),
{
    proof {
        crate::rx::lemma_opts_view_len(caps@);
    }
    if i < caps.len() {
        proof {
            crate::rx::lemma_opts_view_index(caps@, i as int);
        }
        match &caps[i] {
            Some(t) => t.clone(),
            None => String::new(),
        }
    } else {
        String::new()
    }
}

/// Classify one capture set: five groups are a stamped record (time,
/// level, name, text), three groups an unstamped console record with the
/// fixed level, and anything else an empty record.
pub fn caps_handler(caps: &Vec<Option<String>>) -> (r: LogRecord)
    ensures
        ({
            let gs = crate::rx::opts_view(caps@);
            if caps@.len() == 5 {
                &&& r.timestamp == spec_opt_timestamp(spec_cap_or_empty(gs, 1))
                &&& r.logging_level@ == spec_cap_or_empty(gs, 2)
                &&& r.logging_name@ == spec_cap_or_empty(gs, 3)
                &&& r.text@ == spec_cap_or_empty(gs, 4)
            } else if caps@.len() == 3 {
                &&& r.timestamp is None
                &&& r.logging_level@ == "INK"@
                &&& r.logging_name@ == spec_cap_or_empty(gs, 1)
                &&& r.text@ == spec_cap_or_empty(gs, 2)
            } else {
                &&& r.timestamp is None
                &&& r.logging_level@ == Seq::<char>::empty()
                &&& r.logging_name@ == Seq::<char>::empty()
                &&& r.text@ == Seq::<char>::empty()
            }
        }),
{
    if caps.len() == 5 {
        let stamp_text = cap_or_empty(caps, 1);
        let timestamp = parse_log_timestamp(stamp_text.as_str());
        LogRecord {
            timestamp,
            logging_level: cap_or_empty(caps, 2),
            logging_name: cap_or_empty(caps, 3),
            text: cap_or_empty(caps, 4),
        }
    } else if caps.len() == 3 {
        LogRecord {
            timestamp: None,
            logging_level: "INK".to_owned(),
            logging_name: cap_or_empty(caps, 1),
            text: cap_or_empty(caps, 2),
        }
    } else {
        LogRecord {
            timestamp: None,
            logging_level: String::new(),
            logging_name: String::new(),
            text: String::new(),
        }
    }
}

/// The optional timestamp a capture's text denotes, as an `i64` when it
/// lies in range.
pub open spec fn spec_opt_timestamp(s: Seq<char>) -> Option<i64> {
    match spec_parse_log_timestamp(s) {
        Some(t) => if i64::MIN <= t <= i64::MAX {
            Some(t as i64)
        } else {
            None
        },
        None => None,
    }
}

} // verus!

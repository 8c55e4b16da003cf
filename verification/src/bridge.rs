//! The console bridge's computations: the Bridge envelope a console line
//! publishes, and the command lines a Handler envelope feeds back into
//! the console write queue.

use vstd::prelude::*;
use crate::envelope::{spec_bridge_value, MsgBridge, MsgHandler};
use crate::json::json_of;
use crate::reader::spec_joined;
use crate::text::{lemma_strs_view_index, lemma_strs_view_len, strs_view};
use crate::value::{spec_get_bool, Args, Value};
use crate::writer::econ_divide_key;

verus! {

broadcast use vstd::seq::group_seq_axioms, vstd::std_specs::vec::group_vec_axioms;

/// The Bridge envelope a received console line publishes, with the
/// bridge's context arguments.
pub fn bridge_line_json(line: String, args: &Value) -> (r: String)
    ensures
        r@ == json_of(spec_bridge_value(line@, args@), Seq::<char>::empty()),
{
    let msg = MsgBridge { text: line, args: args.duplicate() };
    msg.json()
}

/// The command lines a Handler envelope injects into the console write
/// queue: each value on its own when the arguments carry a true
/// `econ_divide`, the values joined by spaces as one line otherwise.
pub fn handler_commands(msg: &MsgHandler) -> (r: Vec<String>)
    ensures
        ({
            if spec_get_bool(msg.args@, econ_divide_key(), false) {
                strs_view(r@) == strs_view(msg.value@)
            } else {
                strs_view(r@) == seq![spec_joined(strs_view(msg.value@))]
            }
        }),
{
    proof {
        reveal_strlit("econ_divide");
        assert("econ_divide"@ =~= econ_divide_key());
    }
    if Args::get_bool(&msg.args, "econ_divide", false) {
        crate::tasks::clone_strings(&msg.value)
    } else {
        let joined = crate::reader::join_space(&msg.value, 0);
        let mut r: Vec<String> = Vec::new();
        r.push(joined);
        proof {
            lemma_strs_view_len(r@);
            lemma_strs_view_index(r@, 0);
            assert(strs_view(msg.value@).skip(0) =~= strs_view(msg.value@));
            assert(strs_view(r@) =~= seq![spec_joined(strs_view(msg.value@))]);
        }
        r
    }
}

} // verus!

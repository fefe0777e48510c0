//! Helpers shared by the HTTP request handlers. The handlers themselves do
//! request and response I/O and live with the embedding program; what they
//! compute from plain values stands here.

use vstd::prelude::*;
use vstd::string::StringExecFns;
use crate::ext::{str_debug, str_debug_of};

verus! {

/// The standard message for a duration field that would not parse, with the
/// offending value in its quoted debug form.
pub fn bad_duration(field_name: &str, value: &str) -> (r: String)
    ensures
        r@ == "Cannot parse `"@ + field_name@ + "` duration "@ + str_debug_of(value@),
{
    let mut msg: String = "Cannot parse `".to_owned();
    msg.append(field_name);
    msg.append("` duration ");
    let dbg = str_debug(value);
    msg.append(dbg.as_str());
    msg
}

} // verus!

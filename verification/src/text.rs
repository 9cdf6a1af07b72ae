//! Small helpers on text.

use vstd::prelude::*;
use vstd::string::*;

verus! {

/// The text `s` between two double quotes.
pub open spec fn quoted(s: Seq<char>) -> Seq<char> {
    seq!['"'] + s + seq!['"']
}

/// Puts `text` between double quotes, for display in messages.
pub fn quote(text: &str) -> (res: String)
    ensures
        res@ == quoted(text@),
{
    let mut res = String::from_str("\"");
    res.append(text);
    res.append("\"");
    proof {
        reveal_strlit("\"");
    }
    res
}

} // verus!

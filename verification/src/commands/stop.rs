//! `stop`: stopping an instance's container.

use vstd::prelude::*;
use crate::text::owned;

verus! {

/// Result of `stop`.
#[derive(Clone, Debug)]
pub struct StopOutput {
    pub name: String,
}

/// `Instance '<name>' stopped.`
pub open spec fn stop_output_text(o: StopOutput) -> Seq<char> {
    "Instance '"@ + o.name@ + "' stopped."@
}

impl StopOutput {
    /// The line printed after stopping.
    pub fn to_text(&self) -> (r: String)
        ensures
            r@ == stop_output_text(*self),
    {
        let mut r = owned("Instance '");
        r.push_str(self.name.as_str());
        r.push_str("' stopped.");
        r
    }
}

} // verus!

//! `psql`: an interactive session on an instance.

use vstd::prelude::*;
use crate::text::owned;

verus! {

/// Result of a `psql` session.
#[derive(Clone, Debug)]
pub struct PsqlOutput {
    pub name: String,
}

/// `psql session for '<name>' ended.`
pub open spec fn psql_output_text(o: PsqlOutput) -> Seq<char> {
    "psql session for '"@ + o.name@ + "' ended."@
}

impl PsqlOutput {
    /// The line printed after the session.
    pub fn to_text(&self) -> (r: String)
        ensures
            r@ == psql_output_text(*self),
    {
        let mut r = owned("psql session for '");
        r.push_str(self.name.as_str());
        r.push_str("' ended.");
        r
    }
}

} // verus!

//! `delete`: removing an instance, its container and its files, after a
//! confirmation unless forced.

use vstd::prelude::*;
use crate::text::owned;
use crate::time::{trim, trim_ws};

verus! {

/// Result of `delete`.
#[derive(Clone, Debug)]
pub struct DeleteOutput {
    pub name: String,
    pub deleted: bool,
}

/// What `delete` prints: success, or that the deletion was aborted.
pub open spec fn delete_output_text(o: DeleteOutput) -> Seq<char> {
    if o.deleted {
        "Instance '"@ + o.name@ + "' deleted successfully."@
    } else {
        "Instance '"@ + o.name@ + "' deletion aborted."@
    }
}

impl DeleteOutput {
    /// The line printed after `delete`.
    pub fn to_text(&self) -> (r: String)
        ensures
            r@ == delete_output_text(*self),
    {
        let mut r = owned("Instance '");
        r.push_str(self.name.as_str());
        if self.deleted {
            r.push_str("' deleted successfully.");
        } else {
            r.push_str("' deletion aborted.");
        }
        r
    }
}

/// Whether an answer to the confirmation prompt agrees: after trimming white
/// space and lower-casing it reads `y`, which holds for `y` and `Y` alone.
pub open spec fn confirms_deletion(answer: Seq<char>) -> bool {
    let t = trim_ws(answer);
    t == seq!['y'] || t == seq!['Y']
}

/// Whether the answer to "Are you sure ...? [y/N]" confirms the deletion.
pub fn is_confirmation(answer: &str) -> (r: bool)
    ensures
        r == confirms_deletion(answer@),
{
    let t = trim(answer);
    let n: usize = t.as_str().unicode_len();
    if n != 1 {
        assert(t@.len() != 1);
        return false;
    }
    let c = t.as_str().get_char(0);
    assert(c == 'y' ==> t@ =~= seq!['y']);
    assert(c == 'Y' ==> t@ =~= seq!['Y']);
    c == 'y' || c == 'Y'
}

} // verus!

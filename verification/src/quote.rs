//! The crate that the examples publish.

use vstd::prelude::*;

verus! {

/// Returns an inspirational quote as a string.
pub fn get_quote() -> (r: &'static str)
    ensures
        r@ == "The only way to do great work is to love what you do. - Steve Jobs"@,
{
    "The only way to do great work is to love what you do. - Steve Jobs"
}

} // verus!

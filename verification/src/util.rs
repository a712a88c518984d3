//! Utilities relating to the OBJ format.

use vstd::prelude::*;
use vstd::string::StrSliceExecFns;

use crate::text::is_name_char;
use crate::text::valid_name;

verus! {

/// Determine whether a name (of either an object or a group) is valid:
/// every character is ASCII alphanumeric, `.` or `_`.
pub fn name_is_valid(name: &str) -> (r: bool)
    ensures
        r == valid_name(name@),
{
    let n = name.unicode_len();
    let mut i: usize = 0;
    while i < n
        invariant
            i <= n,
            forall|j: int| 0 <= j < i ==> is_name_char(name@[j]),
        decreases n - i,
    {
        let c = name.get_char(i);
        let u = c as u32;
        if !((97 <= u && u <= 122) || (65 <= u && u <= 90) || (48 <= u && u <= 57) || c == '.'
            || c == '_') {
            return false;
        }
        i += 1;
    }
    true
}

} // verus!

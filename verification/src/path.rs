//! Paths as text.
use vstd::prelude::*;

use crate::text;

verus! {

/// `part` below `base`; an absolute `part` stands for itself.
pub open spec fn below(base: Seq<char>, part: Seq<char>) -> Seq<char> {
    if part.len() > 0 && part[0] == '/' {
        part
    } else if base.len() == 0 || base.last() == '/' {
        base + part
    } else {
        base + "/"@ + part
    }
}

/// `part` below `base`.
pub fn join(base: &str, part: &str) -> (result: String)
    ensures
        result@ == below(base@, part@),
{
    if part.unicode_len() > 0 && part.get_char(0) == '/' {
        return part.to_owned();
    }
    let size: usize = base.unicode_len();
    if size == 0 || base.get_char(size - 1) == '/' {
        base.to_owned().concat(part)
    } else {
        base.to_owned().concat("/").concat(part)
    }
}

} // verus!

use vstd::prelude::*;
use vstd::string::*;

use crate::errors::CsvError;

verus! {

/// A path is usable when it is non-empty and free of null characters.
pub open spec fn path_ok(p: Seq<char>) -> bool {
    &&& p.len() > 0
    &&& forall|i: int| 0 <= i < p.len() ==> p[i] != '\0'
}

/// Validate a file path: reject an empty path and a path containing a null
/// character, the only input validation performed at the boundary.
pub fn validate_path(path: &str) -> (r: Result<(), CsvError>)
    ensures
        r is Ok <==> path_ok(path@),
        r is Err ==> r == Err::<(), CsvError>(CsvError::InvalidArgument),
{
    let n = path.unicode_len();
    if n == 0 {
        return Err(CsvError::InvalidArgument);
    }
    let mut i: usize = 0;
    while i < n
        invariant
            n == path@.len(),
            0 <= i <= n,
            forall|j: int| 0 <= j < i ==> path@[j] != '\0',
        decreases n - i,
    {
        if path.get_char(i) == '\0' {
            return Err(CsvError::InvalidArgument);
        }
        i = i + 1;
    }
    Ok(())
}

} // verus!

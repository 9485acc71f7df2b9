//! Size of memory pages.

use vstd::prelude::*;

verus! {

/// Returns page size, given what the system answered: minus one if it does not know.
pub fn get(answer: i64) -> (size: Option<usize>)
    requires
        -1 <= answer <= usize::MAX,
    ensures
        size == if answer == -1 {
            None
        } else {
            Some(answer as usize)
        },
{
    if answer == -1 {
        None
    } else {
        Some(answer as usize)
    }
}

/// The page size is what the system answered, unless it does not know.
pub proof fn law_page_size(answer: i64, size: Option<usize>)
    requires
        -1 <= answer <= usize::MAX,
        call_ensures(get, (answer,), size),
    ensures
        size is None <==> answer < 0,
        size is Some ==> size->0 == answer,
{
}

} // verus!

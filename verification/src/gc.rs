//! Memories to move to the archive: expired or superseded ones.

use crate::date::{today, Date};
use crate::order::{positions, select_positions};
use crate::schema::MemoryFile;
use vstd::prelude::*;

verus! {

/// Which memories are archived on `today`: the expired and the superseded.
pub open spec fn archive_mask(ms: Seq<MemoryFile>, today: Date) -> Seq<bool> {
    ms.map_values(|m: MemoryFile| m.is_expired_on(today) || m.is_superseded())
}

/// The positions of the memories to archive on `today`, in order.
pub fn candidates_on(memories: &Vec<MemoryFile>, today: &Date) -> (r: Vec<usize>)
    ensures
        r@ == positions(archive_mask(memories@, *today)),
{
    let mut mask: Vec<bool> = Vec::new();
    let mut i: usize = 0;
    while i < memories.len()
        invariant
            i <= memories.len(),
            mask@ == archive_mask(memories@, *today).take(i as int),
        decreases memories.len() - i,
    {
        mask.push(memories[i].expired_on(today) || memories[i].superseded());
        i = i + 1;
        assert(mask@ =~= archive_mask(memories@, *today).take(i as int));
    }
    assert(archive_mask(memories@, *today).take(i as int) =~= archive_mask(memories@, *today));
    select_positions(&mask)
}

/// The positions of the memories to archive today.  The date is the
/// machine's; nothing is stated of which day it is.
pub fn run(memories: &Vec<MemoryFile>) -> (r: Vec<usize>)
    ensures
        exists|day: Date| r@ == positions(archive_mask(memories@, day)),
{
    let day = today();
    candidates_on(memories, &day)
}

} // verus!

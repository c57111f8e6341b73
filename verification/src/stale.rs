//! Memories whose `valid_until` day has come.

use crate::date::{date_text, today, Date};
use crate::order::{positions, select_positions};
use crate::schema::MemoryFile;
use crate::text::views;
use vstd::prelude::*;

verus! {

/// Which memories are expired on `today`.
pub open spec fn expired_mask(ms: Seq<MemoryFile>, today: Date) -> Seq<bool> {
    ms.map_values(|m: MemoryFile| m.is_expired_on(today))
}

/// The report line of an expired memory: `file (expired YYYY-MM-DD)`.
pub open spec fn stale_line(mf: MemoryFile) -> Seq<char> {
    mf.file_name@ + " (expired "@ + date_text(mf.frontmatter.valid_until.unwrap().ymd()) + ")"@
}

/// The positions of the memories expired on `today`, in order.
pub fn expired_on(memories: &Vec<MemoryFile>, today: &Date) -> (r: Vec<usize>)
    ensures
        r@ == positions(expired_mask(memories@, *today)),
{
    let mut mask: Vec<bool> = Vec::new();
    let mut i: usize = 0;
    while i < memories.len()
        invariant
            i <= memories.len(),
            mask@ == expired_mask(memories@, *today).take(i as int),
        decreases memories.len() - i,
    {
        mask.push(memories[i].expired_on(today));
        i = i + 1;
        assert(mask@ =~= expired_mask(memories@, *today).take(i as int));
    }
    assert(expired_mask(memories@, *today).take(i as int) =~= expired_mask(memories@, *today));
    select_positions(&mask)
}

/// The report lines of the memories expired on `today`, in order.
pub fn report_on(memories: &Vec<MemoryFile>, today: &Date) -> (lines: Vec<String>)
    ensures
        views(lines@) == positions(expired_mask(memories@, *today)).map_values(
            |i: usize| stale_line(memories@[i as int]),
        ),
{
    let idx = expired_on(memories, today);
    let ghost want = idx@.map_values(|i: usize| stale_line(memories@[i as int]));
    let mut lines: Vec<String> = Vec::new();
    let mut k: usize = 0;
    while k < idx.len()
        invariant
            k <= idx.len(),
            idx@ == positions(expired_mask(memories@, *today)),
            want == idx@.map_values(|i: usize| stale_line(memories@[i as int])),
            views(lines@) == want.take(k as int),
        decreases idx.len() - k,
    {
        let i = idx[k];
        proof {
            assert(expired_mask(memories@, *today).len() == memories.len());
            crate::order::lemma_positions_lists(expired_mask(memories@, *today), i as int);
            assert(crate::order::lists(idx@, i as int)) by {
                assert(idx@[k as int] as int == i as int);
            }
        }
        let m = &memories[i];
        let mut l = String::new();
        l.append(m.file_name.as_str());
        l.append(" (expired ");
        match &m.frontmatter.valid_until {
            Some(d) => {
                let t = d.to_text();
                l.append(t.as_str());
            },
            None => {},
        }
        l.append(")");
        let ghost before = lines@;
        lines.push(l);
        proof {
            assert(views(before).len() == before.len());
            assert forall|j: int| 0 <= j < k + 1 implies views(lines@)[j] == want.take(k + 1)[j] by {
                if j < k {
                    assert(views(before)[j] == want.take(k as int)[j]);
                    assert(lines@[j] == before[j]);
                }
            }
            assert(views(lines@) =~= want.take(k + 1));
        }
        k = k + 1;
    }
    assert(want.take(k as int) =~= want);
    lines
}

/// The report lines of the memories expired today.  The date is the
/// machine's; nothing is stated of which day it is.
pub fn run(memories: &Vec<MemoryFile>) -> (lines: Vec<String>)
    ensures
        exists|day: Date|
            views(lines@) == positions(expired_mask(memories@, day)).map_values(
                |i: usize| stale_line(memories@[i as int]),
            ),
{
    let day = today();
    report_on(memories, &day)
}

} // verus!

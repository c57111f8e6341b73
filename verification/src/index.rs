//! The index of a memory directory (`MEMORY.md`): one line per active memory,
//! ordered by kind, then name.

use crate::date::{today, Date};
use crate::order::{is_sorted_selection, precedes, sort_selection, texts_of};
use crate::schema::{lemma_label_order, MemoryFile};
use crate::text::{
    byte_len, byte_len_exceeds, chars_of, fitting_prefix_len, join, join_texts, longest_fitting_prefix, text_lt,
    text_of_range, views,
};
use vstd::prelude::*;
use vstd::utf8::encode_utf8;

verus! {

/// The description as the index shows it: whole when its UTF-8 form has at
/// most 100 bytes, else its longest prefix of at most 97 bytes and `...`.
pub open spec fn shown_description(d: Seq<char>) -> Seq<char> {
    if byte_len(d) > 100 {
        longest_fitting_prefix(d, 97) + "..."@
    } else {
        d
    }
}

/// ` #tag1 #tag2 ...`, or nothing when there are no tags.
pub open spec fn tags_suffix(tags: Seq<Seq<char>>) -> Seq<char> {
    if tags.len() == 0 {
        seq![]
    } else {
        " "@ + join(tags.map_values(|t: Seq<char>| "#"@ + t), " "@)
    }
}

/// The index line of a memory: `- [name](file) — description #tags`.
pub open spec fn index_line(mf: MemoryFile) -> Seq<char> {
    "- ["@ + mf.frontmatter.name@ + "]("@ + mf.file_name@ + ") \u{2014} "@ + shown_description(
        mf.frontmatter.description@,
    ) + tags_suffix(views(mf.frontmatter.tags@))
}

/// The ranks of the memories' kinds.
pub open spec fn kind_ranks(ms: Seq<MemoryFile>) -> Seq<u8> {
    ms.map_values(|m: MemoryFile| m.frontmatter.memory_type.rank())
}

/// The memories' names.
pub open spec fn names(ms: Seq<MemoryFile>) -> Seq<Seq<char>> {
    ms.map_values(|m: MemoryFile| m.frontmatter.name@)
}

/// Which memories are active on `today`.
pub open spec fn active_mask(ms: Seq<MemoryFile>, today: Date) -> Seq<bool> {
    ms.map_values(|m: MemoryFile| m.is_active_on(today))
}

/// `order` lists the memories active on `today`, each once, by kind, then
/// name, then position.
pub open spec fn is_index_order(ms: Seq<MemoryFile>, today: Date, order: Seq<usize>) -> bool {
    is_sorted_selection(kind_ranks(ms), names(ms), active_mask(ms, today), order)
}

/// The index text for the memories in `order`: their lines, one per line.
pub open spec fn index_text(ms: Seq<MemoryFile>, order: Seq<usize>) -> Seq<char> {
    join(order.map_values(|i: usize| index_line(ms[i as int])), "\n"@)
}

/// The order in which the index lists the memories active on `today`.
pub fn index_order(memories: &Vec<MemoryFile>, today: &Date) -> (order: Vec<usize>)
    ensures
        is_index_order(memories@, *today, order@),
{
    let mut ranks: Vec<u8> = Vec::new();
    let mut texts: Vec<Vec<char>> = Vec::new();
    let mut selected: Vec<bool> = Vec::new();
    let mut i: usize = 0;
    while i < memories.len()
        invariant
            i <= memories.len(),
            ranks.len() == i,
            texts.len() == i,
            selected.len() == i,
            forall|k: int| 0 <= k < i ==> ranks@[k] == memories@[k].frontmatter.memory_type.rank(),
            forall|k: int| 0 <= k < i ==> (#[trigger] texts@[k])@ == memories@[k].frontmatter.name@,
            forall|k: int| 0 <= k < i ==> selected@[k] == memories@[k].is_active_on(*today),
        decreases memories.len() - i,
    {
        let m = &memories[i];
        ranks.push(m.frontmatter.memory_type.rank_of());
        texts.push(chars_of(m.frontmatter.name.as_str()));
        selected.push(m.active_on(today));
        i = i + 1;
    }
    assert(ranks@ =~= kind_ranks(memories@));
    assert(texts_of(texts@) =~= names(memories@));
    assert(selected@ =~= active_mask(memories@, *today));
    sort_selection(&ranks, &texts, &selected)
}

/// The description as the index shows it.
pub fn shorten_description(d: &str) -> (r: String)
    ensures
        r@ == shown_description(d@),
{
    let cs = chars_of(d);
    if byte_len_exceeds(&cs, 100) {
        let n = fitting_prefix_len(&cs, 97);
        let mut r = text_of_range(&cs, 0, n);
        assert(cs@.subrange(0, n as int) =~= cs@.take(n as int));
        r.append("...");
        r
    } else {
        d.to_owned()
    }
}

/// The tag suffix of an index line.
pub fn tag_suffix(tags: &Vec<String>) -> (r: String)
    ensures
        r@ == tags_suffix(views(tags@)),
{
    if tags.len() == 0 {
        return String::new();
    }
    let mut marked: Vec<String> = Vec::new();
    let mut i: usize = 0;
    while i < tags.len()
        invariant
            i <= tags.len(),
            views(marked@) == views(tags@).take(i as int).map_values(|t: Seq<char>| "#"@ + t),
        decreases tags.len() - i,
    {
        let mut t = String::new();
        t.append("#");
        t.append(tags[i].as_str());
        let ghost before = marked@;
        marked.push(t);
        proof {
            let want = views(tags@).take(i + 1).map_values(|t: Seq<char>| "#"@ + t);
            let had = views(tags@).take(i as int).map_values(|t: Seq<char>| "#"@ + t);
            assert(views(before).len() == before.len());
            assert(had.len() == i);
            assert forall|j: int| 0 <= j < i + 1 implies views(marked@)[j] == want[j] by {
                if j < i {
                    assert(views(before)[j] == had[j]);
                    assert(marked@[j] == before[j]);
                }
            }
            assert(views(marked@) =~= want);
        }
        i = i + 1;
    }
    assert(views(tags@).take(i as int) =~= views(tags@));
    let mut r = String::new();
    r.append(" ");
    let joined = join_texts(&marked, " ");
    r.append(joined.as_str());
    r
}

/// The index line of one memory.
pub fn line(mf: &MemoryFile) -> (r: String)
    ensures
        r@ == index_line(*mf),
{
    let mut r = String::new();
    r.append("- [");
    r.append(mf.frontmatter.name.as_str());
    r.append("](");
    r.append(mf.file_name.as_str());
    r.append(") \u{2014} ");
    let d = shorten_description(mf.frontmatter.description.as_str());
    r.append(d.as_str());
    let t = tag_suffix(&mf.frontmatter.tags);
    r.append(t.as_str());
    r
}

/// The index text of the memories, as it stands on `today`.
pub fn generate_on(memories: &Vec<MemoryFile>, today: &Date) -> (r: String)
    ensures
        exists|order: Seq<usize>|
            is_index_order(memories@, *today, order) && r@ == index_text(memories@, order),
{
    let order = index_order(memories, today);
    let mut lines: Vec<String> = Vec::new();
    let mut k: usize = 0;
    while k < order.len()
        invariant
            k <= order.len(),
            is_index_order(memories@, *today, order@),
            views(lines@) == order@.take(k as int).map_values(|i: usize| index_line(memories@[i as int])),
        decreases order.len() - k,
    {
        let idx = order[k];
        assert(order@[k as int] < active_mask(memories@, *today).len());
        let l = line(&memories[idx]);
        let ghost before = lines@;
        lines.push(l);
        proof {
            let want = order@.take(k + 1).map_values(|i: usize| index_line(memories@[i as int]));
            let had = order@.take(k as int).map_values(|i: usize| index_line(memories@[i as int]));
            assert(views(before).len() == before.len());
            assert(had.len() == k);
            assert forall|j: int| 0 <= j < k + 1 implies views(lines@)[j] == want[j] by {
                if j < k {
                    assert(views(before)[j] == had[j]);
                    assert(lines@[j] == before[j]);
                }
            }
            assert(views(lines@) =~= want);
        }
        k = k + 1;
    }
    assert(order@.take(k as int) =~= order@);
    let r = join_texts(&lines, "\n");
    assert(r@ == index_text(memories@, order@));
    r
}

/// The index text of the memories, as it stands on today's date.  The date
/// is the machine's; nothing is stated of which day it is.
pub fn generate(memories: &Vec<MemoryFile>) -> (r: String)
    ensures
        exists|day: Date, order: Seq<usize>|
            is_index_order(memories@, day, order) && r@ == index_text(memories@, order),
{
    let day = today();
    generate_on(memories, &day)
}

} // verus!

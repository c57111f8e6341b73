//! Properties that hold across the operations: what the index lists and in
//! which order, and how the index, the archive, staleness, supersession and
//! validation relate.

use crate::date::Date;
use crate::gc::archive_mask;
use crate::index::{index_text, is_index_order, kind_ranks, names, active_mask, shown_description};
use crate::order::{lemma_positions_lists, lemma_sorted_selection_unique, lists, positions, precedes};
use crate::schema::{is_listing_order, is_memory_file_name, lemma_label_order, MemoryFile};
use crate::stale::expired_mask;
use crate::text::{byte_len, char_width, lemma_byte_len_concat, lemma_byte_len_single, longest_fitting_prefix, text_lt};
use crate::validate::{all_diagnostics, file_diagnostics};
use crate::show::matches_query;
use crate::text::{lowercase, trimmed, is_white_space, trim_start, trim_end};
use crate::schema::document_text;
use crate::date::ymd_le;
use crate::index::tags_suffix;
use crate::text::{has_infix, join, occurs_at};
use vstd::prelude::*;

verus! {

/// The index of a set of memories on a given day is determined: there is one
/// order that lists the active memories by kind, then name, then position,
/// so generating the index twice gives the same text.
pub proof fn lemma_index_deterministic(
    ms: Seq<MemoryFile>,
    day: Date,
    o1: Seq<usize>,
    o2: Seq<usize>,
)
    requires
        is_index_order(ms, day, o1),
        is_index_order(ms, day, o2),
    ensures
        o1 == o2,
        index_text(ms, o1) == index_text(ms, o2),
{
    lemma_sorted_selection_unique(kind_ranks(ms), names(ms), active_mask(ms, day), o1, o2);
}

/// The index lists a memory exactly when it is active: neither superseded
/// nor past its `valid_until` day.
pub proof fn lemma_index_lists_active(ms: Seq<MemoryFile>, day: Date, order: Seq<usize>, i: int)
    requires
        is_index_order(ms, day, order),
    ensures
        lists(order, i) <==> (0 <= i < ms.len() && ms[i].is_active_on(day)),
{
    if lists(order, i) {
        let k = choose|k: int| 0 <= k < order.len() && order[k] as int == i;
        assert(active_mask(ms, day)[order[k] as int]);
    }
    if 0 <= i < ms.len() && ms[i].is_active_on(day) {
        assert(active_mask(ms, day)[i]);
    }
}

/// Index lines come by kind name (feedback, project, reference, user), then
/// by name in code point order; memories equal in both keep their order.
pub proof fn lemma_index_sorted_by_kind_then_name(
    ms: Seq<MemoryFile>,
    day: Date,
    order: Seq<usize>,
    a: int,
    b: int,
)
    requires
        is_index_order(ms, day, order),
        0 <= a < b < order.len(),
    ensures
        ({
            let x = ms[order[a] as int].frontmatter;
            let y = ms[order[b] as int].frontmatter;
            ||| text_lt(x.memory_type.label_text(), y.memory_type.label_text())
            ||| (x.memory_type == y.memory_type && text_lt(x.name@, y.name@))
            ||| (x.memory_type == y.memory_type && x.name@ == y.name@ && order[a] < order[b])
        }),
{
    let i = order[a] as int;
    let j = order[b] as int;
    assert(precedes(kind_ranks(ms), names(ms), i, j));
    assert(i < ms.len() && j < ms.len());
    lemma_label_order(ms[i].frontmatter.memory_type, ms[j].frontmatter.memory_type);
    let ta = ms[i].frontmatter.memory_type;
    let tb = ms[j].frontmatter.memory_type;
    if ta.rank() == tb.rank() {
        assert(ta.label_text() == tb.label_text()) by {
            lemma_label_order(ta, tb);
            lemma_label_order(tb, ta);
            if ta != tb {
                assert(ta.label_text() != tb.label_text());
                crate::text::lemma_text_lt_total(ta.label_text(), tb.label_text());
            }
        }
    }
}

proof fn lemma_fitting_prefix_fits(s: Seq<char>, budget: int)
    requires
        budget >= 0,
    ensures
        byte_len(longest_fitting_prefix(s, budget)) <= budget,
        longest_fitting_prefix(s, budget).len() <= s.len(),
        longest_fitting_prefix(s, budget) == s.take(longest_fitting_prefix(s, budget).len() as int),
    decreases s.len(),
{
    if s.len() == 0 || char_width(s[0]) > budget {
        assert(byte_len(Seq::<char>::empty()) == 0) by {
            assert(vstd::utf8::encode_utf8(Seq::<char>::empty()) =~= Seq::<u8>::empty());
        }
        assert(s.take(0) =~= Seq::<char>::empty());
    } else {
        let rest = longest_fitting_prefix(s.drop_first(), budget - char_width(s[0]));
        lemma_fitting_prefix_fits(s.drop_first(), budget - char_width(s[0]));
        lemma_byte_len_concat(seq![s[0]], rest);
        lemma_byte_len_single(s[0]);
        assert(seq![s[0]] + rest =~= s.take(rest.len() + 1 as int));
    }
}

/// The index shows a description whole when it has at most 100 bytes;
/// otherwise it cuts it at a character boundary and adds `...`, and the
/// shown text never exceeds 100 bytes.
pub proof fn lemma_shown_description_fits(d: Seq<char>)
    ensures
        byte_len(shown_description(d)) <= 100,
        byte_len(d) <= 100 ==> shown_description(d) == d,
        byte_len(d) > 100 ==> exists|n: int|
            0 <= n < d.len() && shown_description(d) == d.take(n) + "..."@,
{
    if byte_len(d) > 100 {
        let p = longest_fitting_prefix(d, 97);
        lemma_fitting_prefix_fits(d, 97);
        lemma_byte_len_concat(p, "..."@);
        reveal_strlit("...");
        assert(byte_len("..."@) == 3) by {
            let dots = "..."@;
            assert(dots.drop_first().drop_first().drop_first() =~= Seq::<char>::empty());
            assert(vstd::utf8::encode_utf8(Seq::<char>::empty()) =~= Seq::<u8>::empty());
            lemma_byte_len_single('.');
            lemma_byte_len_concat(seq!['.'], seq!['.']);
            lemma_byte_len_concat(seq!['.', '.'], seq!['.']);
            assert(dots =~= seq!['.', '.'] + seq!['.']);
            assert(seq!['.', '.'] =~= seq!['.'] + seq!['.']);
        }
        if p.len() == d.len() {
            assert(p =~= d);
        }
        assert(shown_description(d) == d.take(p.len() as int) + "..."@);
    }
}

/// Every memory leaves the index or goes to the archive, never both and
/// never neither: the index lists the active memories, the archive takes the
/// expired and the superseded.
pub proof fn lemma_index_and_archive_partition(
    ms: Seq<MemoryFile>,
    day: Date,
    order: Seq<usize>,
    i: int,
)
    requires
        is_index_order(ms, day, order),
        ms.len() <= usize::MAX,
        0 <= i < ms.len(),
    ensures
        lists(order, i) <==> !lists(positions(archive_mask(ms, day)), i),
{
    lemma_index_lists_active(ms, day, order, i);
    lemma_positions_lists(archive_mask(ms, day), i);
}

/// Every stale memory is archived.
pub proof fn lemma_stale_memories_are_archived(ms: Seq<MemoryFile>, day: Date, i: int)
    requires
        ms.len() <= usize::MAX,
        lists(positions(expired_mask(ms, day)), i),
    ensures
        lists(positions(archive_mask(ms, day)), i),
{
    lemma_positions_lists(expired_mask(ms, day), i);
    lemma_positions_lists(archive_mask(ms, day), i);
}

/// A superseded memory is out of the index and in the archive, whatever the
/// day.
pub proof fn lemma_superseded_memory_leaves_index(
    ms: Seq<MemoryFile>,
    day: Date,
    order: Seq<usize>,
    k: int,
)
    requires
        is_index_order(ms, day, order),
        ms.len() <= usize::MAX,
        0 <= k < ms.len(),
        ms[k].is_superseded(),
    ensures
        !lists(order, k),
        lists(positions(archive_mask(ms, day)), k),
{
    lemma_index_lists_active(ms, day, order, k);
    lemma_positions_lists(archive_mask(ms, day), k);
}

/// The index file `MEMORY.md` is never read as a memory file.
pub proof fn lemma_index_file_not_listed(names: Seq<Seq<char>>, order: Seq<usize>, k: int)
    requires
        is_listing_order(names, order),
        0 <= k < order.len(),
    ensures
        names[order[k] as int] != "MEMORY.md"@,
{
    assert(order[k] < names.len());
    assert(is_memory_file_name(names[order[k] as int]));
}

/// A memory superseded by itself always draws an error.
pub proof fn lemma_self_supersession_is_an_error(mf: MemoryFile, target_exists: bool, day: Date)
    requires
        mf.frontmatter.superseded_by matches Some(t) && t@ == mf.file_name@,
    ensures
        file_diagnostics(mf, target_exists, day).len() > 0,
        file_diagnostics(mf, target_exists, day)[0].0,
{
}


/// The total length of the tags, each counted with one more character for
/// its `#` mark.
pub open spec fn marked_tags_len(tags: Seq<Seq<char>>) -> nat
    decreases tags.len(),
{
    if tags.len() == 0 {
        0
    } else {
        marked_tags_len(tags.drop_last()) + tags.last().len() + 1
    }
}

/// The tag suffix of a single tag `t` is ` #t`.
pub proof fn lemma_tags_suffix_single(t: Seq<char>)
    ensures
        tags_suffix(seq![t]) == " "@ + "#"@ + t,
{
    let m = seq![t].map_values(|x: Seq<char>| "#"@ + x);
    assert(m.len() == 1);
    assert(join(m, " "@) == m[0]);
    assert(" "@ + ("#"@ + t) =~= " "@ + "#"@ + t);
}

/// Adding a tag to a non-empty tag list adds ` #tag` at the end of the
/// suffix and keeps everything before it.
pub proof fn lemma_tags_suffix_push(tags: Seq<Seq<char>>, t: Seq<char>)
    requires
        tags.len() >= 1,
    ensures
        tags_suffix(tags.push(t)) == tags_suffix(tags) + " "@ + "#"@ + t,
{
    let f = |x: Seq<char>| "#"@ + x;
    let m = tags.push(t).map_values(f);
    assert(m.drop_last() =~= tags.map_values(f));
    assert(m.last() == "#"@ + t);
    let j = join(tags.map_values(f), " "@);
    assert(join(m, " "@) == j + " "@ + ("#"@ + t));
    assert(" "@ + (j + " "@ + ("#"@ + t)) =~= (" "@ + j) + " "@ + "#"@ + t);
}

/// An empty tag list gives no suffix at all.
pub proof fn lemma_tags_suffix_empty()
    ensures
        tags_suffix(Seq::<Seq<char>>::empty()).len() == 0,
{
}

/// For `n >= 1` tags the suffix is ` #t_1 #t_2 ... #t_n`: its length is
/// `n + sum(|t_i| + 1)`, and every tag, with its `#` mark, occurs in it.
pub proof fn lemma_tags_suffix_holds_every_tag(tags: Seq<Seq<char>>)
    requires
        tags.len() >= 1,
    ensures
        tags_suffix(tags).len() == tags.len() + marked_tags_len(tags),
        forall|i: int| 0 <= i < tags.len() ==> has_infix(tags_suffix(tags), "#"@ + #[trigger] tags[i]),
    decreases tags.len(),
{
    reveal_strlit("#");
    reveal_strlit(" ");
    let last = tags.last();
    if tags.len() == 1 {
        lemma_tags_suffix_single(last);
        assert(tags =~= seq![last]);
        assert(tags.drop_last() =~= Seq::<Seq<char>>::empty());
        let sfx = tags_suffix(tags);
        assert forall|i: int| 0 <= i < tags.len() implies has_infix(sfx, "#"@ + #[trigger] tags[i]) by {
            assert(sfx.subrange(1, 1 + ("#"@ + last).len() as int) =~= "#"@ + last);
            assert(occurs_at(sfx, "#"@ + tags[i], 1));
        }
    } else {
        let init = tags.drop_last();
        lemma_tags_suffix_holds_every_tag(init);
        lemma_tags_suffix_push(init, last);
        assert(init.push(last) =~= tags);
        let before = tags_suffix(init);
        let sfx = tags_suffix(tags);
        assert(sfx == before + " "@ + "#"@ + last);
        assert forall|i: int| 0 <= i < tags.len() implies has_infix(sfx, "#"@ + #[trigger] tags[i]) by {
            let needle = "#"@ + tags[i];
            if i < init.len() {
                assert(init[i] == tags[i]);
                assert(has_infix(before, "#"@ + init[i]));
                let k = choose|k: int| #[trigger] occurs_at(before, needle, k);
                assert(sfx.subrange(k, k + needle.len()) =~= before.subrange(k, k + needle.len()));
                assert(occurs_at(sfx, needle, k));
            } else {
                let k: int = before.len() as int + 1;
                assert(sfx.subrange(k, k + needle.len()) =~= needle);
                assert(occurs_at(sfx, needle, k));
            }
        }
    }
}


/// Some finding in the list is an error.
pub open spec fn has_error(ds: Seq<(bool, Seq<char>)>) -> bool {
    exists|i: int| 0 <= i < ds.len() && (#[trigger] ds[i]).0
}

/// Some finding in the list is a warning.
pub open spec fn has_warning(ds: Seq<(bool, Seq<char>)>) -> bool {
    exists|i: int| 0 <= i < ds.len() && !(#[trigger] ds[i]).0
}

/// The memory's `superseded_by` names itself or a file that does not exist.
pub open spec fn bad_supersession(mf: MemoryFile, target_exists: bool) -> bool {
    mf.frontmatter.superseded_by matches Some(t) && (t@ == mf.file_name@ || !target_exists)
}

proof fn lemma_has_error_concat(a: Seq<(bool, Seq<char>)>, b: Seq<(bool, Seq<char>)>)
    ensures
        has_error(a + b) == (has_error(a) || has_error(b)),
        has_warning(a + b) == (has_warning(a) || has_warning(b)),
{
    if has_error(a) {
        let i = choose|i: int| 0 <= i < a.len() && (#[trigger] a[i]).0;
        assert((a + b)[i] == a[i]);
    }
    if has_error(b) {
        let i = choose|i: int| 0 <= i < b.len() && (#[trigger] b[i]).0;
        assert((a + b)[a.len() + i] == b[i]);
    }
    if has_error(a + b) {
        let i = choose|i: int| 0 <= i < (a + b).len() && (#[trigger] (a + b)[i]).0;
        if i < a.len() {
            assert(a[i] == (a + b)[i]);
        } else {
            assert(b[i - a.len()] == (a + b)[i]);
        }
    }
    if has_warning(a) {
        let i = choose|i: int| 0 <= i < a.len() && !(#[trigger] a[i]).0;
        assert((a + b)[i] == a[i]);
    }
    if has_warning(b) {
        let i = choose|i: int| 0 <= i < b.len() && !(#[trigger] b[i]).0;
        assert((a + b)[a.len() + i] == b[i]);
    }
    if has_warning(a + b) {
        let i = choose|i: int| 0 <= i < (a + b).len() && !(#[trigger] (a + b)[i]).0;
        if i < a.len() {
            assert(a[i] == (a + b)[i]);
        } else {
            assert(b[i - a.len()] == (a + b)[i]);
        }
    }
}

/// A memory draws an error exactly when its `superseded_by` names itself or
/// a file that does not exist, and a warning exactly when it is expired.
pub proof fn lemma_file_findings(mf: MemoryFile, target_exists: bool, day: Date)
    ensures
        has_error(file_diagnostics(mf, target_exists, day)) <==> bad_supersession(mf, target_exists),
        has_warning(file_diagnostics(mf, target_exists, day)) <==> mf.is_expired_on(day),
{
    let fd = file_diagnostics(mf, target_exists, day);
    if bad_supersession(mf, target_exists) {
        assert(fd[0].0);
    }
    if mf.is_expired_on(day) {
        assert(!fd[fd.len() - 1].0);
    }
}

/// Validation of a set of memories finds an error exactly when one of them
/// has a `superseded_by` that names itself or a missing file; so `passes`
/// fails on any set that holds such a memory.
pub proof fn lemma_validation_fails_on_bad_supersession(
    ms: Seq<MemoryFile>,
    target_exists: Seq<bool>,
    day: Date,
)
    requires
        target_exists.len() == ms.len(),
    ensures
        has_error(all_diagnostics(ms, target_exists, day)) <==> exists|k: int|
            0 <= k < ms.len() && bad_supersession(#[trigger] ms[k], target_exists[k]),
    decreases ms.len(),
{
    if ms.len() == 0 {
    } else {
        let init = ms.drop_last();
        let te = target_exists.drop_last();
        lemma_validation_fails_on_bad_supersession(init, te, day);
        lemma_has_error_concat(
            all_diagnostics(init, te, day),
            file_diagnostics(ms.last(), target_exists.last(), day),
        );
        lemma_file_findings(ms.last(), target_exists.last(), day);
        if exists|k: int| 0 <= k < ms.len() && bad_supersession(#[trigger] ms[k], target_exists[k]) {
            let k = choose|k: int| 0 <= k < ms.len() && bad_supersession(#[trigger] ms[k], target_exists[k]);
            if k < init.len() {
                assert(init[k] == ms[k] && te[k] == target_exists[k]);
                assert(bad_supersession(init[k], te[k]));
            }
        }
        if exists|k: int| 0 <= k < init.len() && bad_supersession(#[trigger] init[k], te[k]) {
            let k = choose|k: int| 0 <= k < init.len() && bad_supersession(#[trigger] init[k], te[k]);
            assert(ms[k] == init[k]);
            assert(bad_supersession(ms[k], target_exists[k]));
        }
        if bad_supersession(ms.last(), target_exists.last()) {
            assert(bad_supersession(ms[ms.len() - 1], target_exists[ms.len() - 1]));
        }
    }
}

/// Matching a query ignores its case: two queries with the same lowercase
/// form pick the same memories.
pub proof fn lemma_query_case_insensitive(mf: MemoryFile, q1: Seq<char>, q2: Seq<char>)
    requires
        lowercase(q1) == lowercase(q2),
    ensures
        matches_query(mf, q1) == matches_query(mf, q2),
{
}

/// A memory answers every query that equals its file name (with or without
/// `.md`), or its name, up to case, or that is a part of its name up to case;
/// and it answers no other query.
pub proof fn lemma_query_matches_names(mf: MemoryFile, q: Seq<char>)
    ensures
        lowercase(mf.file_name@) == lowercase(q) ==> matches_query(mf, q),
        lowercase(mf.file_name@) == lowercase(q) + ".md"@ ==> matches_query(mf, q),
        matches_query(mf, q) ==> (lowercase(mf.file_name@) == lowercase(q) || lowercase(
            mf.file_name@,
        ) == lowercase(q) + ".md"@ || has_infix(lowercase(mf.frontmatter.name@), lowercase(q))),
        lowercase(mf.frontmatter.name@) == lowercase(q) ==> matches_query(mf, q),
        has_infix(lowercase(mf.frontmatter.name@), lowercase(q)) ==> matches_query(mf, q),
{
    let n = lowercase(mf.frontmatter.name@);
    if n == lowercase(q) {
        assert(n.subrange(0, n.len() as int) =~= n);
        assert(occurs_at(n, lowercase(q), 0));
    }
}

/// Dates are ordered chronologically: the order is total, reflexive,
/// antisymmetric and transitive, an earlier year or an earlier month of the
/// same year comes first, and within a month the days count.
pub proof fn lemma_date_order_chronological(a: (int, int, int), b: (int, int, int), c: (int, int, int))
    ensures
        ymd_le(a, b) || ymd_le(b, a),
        ymd_le(a, a),
        ymd_le(a, b) && ymd_le(b, a) ==> a == b,
        ymd_le(a, b) && ymd_le(b, c) ==> ymd_le(a, c),
        a.0 < b.0 ==> ymd_le(a, b) && !ymd_le(b, a),
        a.0 == b.0 && a.1 < b.1 ==> ymd_le(a, b) && !ymd_le(b, a),
        a.0 == b.0 && a.1 == b.1 ==> (ymd_le(a, b) <==> a.2 <= b.2),
{
}

/// A memory whose `valid_until` lies in an earlier month of the current
/// year, or in an earlier year, is expired.
pub proof fn lemma_earlier_month_is_expired(mf: MemoryFile, day: Date)
    requires
        mf.frontmatter.valid_until matches Some(d) && (d.ymd().0 < day.ymd().0 || (d.ymd().0
            == day.ymd().0 && d.ymd().1 < day.ymd().1)),
    ensures
        mf.is_expired_on(day),
{
}

/// A rewritten memory file holds its whole trimmed body, however long:
/// `---`, the front matter, `---`, a blank line, the trimmed body and a line
/// break, so its length is that of the front matter and the trimmed body
/// plus 10.
pub proof fn lemma_document_holds_whole_body(yaml: Seq<char>, body: Seq<char>)
    ensures
        ({
            let d = document_text(yaml, body);
            let y = yaml.len() as int;
            &&& d.len() == yaml.len() + trimmed(body).len() + 10
            &&& d.subrange(0, 4) == "---\n"@
            &&& d.subrange(4, 4 + y) == yaml
            &&& d.subrange(4 + y, 9 + y) == "---\n\n"@
            &&& d.subrange(9 + y, d.len() - 1) == trimmed(body)
            &&& d[d.len() - 1] == '\n'
        }),
{
    reveal_strlit("---\n");
    reveal_strlit("---\n\n");
    reveal_strlit("\n");
    let d = document_text(yaml, body);
    let y = yaml.len() as int;
    let t = trimmed(body);
    assert(d.subrange(0, 4) =~= "---\n"@);
    assert(d.subrange(4, 4 + y) =~= yaml);
    assert(d.subrange(4 + y, 9 + y) =~= "---\n\n"@);
    assert(d.subrange(9 + y, d.len() - 1) =~= t);
}

proof fn lemma_trim_start_shape(s: Seq<char>) -> (lo: int)
    ensures
        0 <= lo <= s.len(),
        trim_start(s) == s.skip(lo),
        forall|i: int| 0 <= i < lo ==> is_white_space(#[trigger] s[i]),
        lo < s.len() ==> !is_white_space(s[lo]),
    decreases s.len(),
{
    if s.len() > 0 && is_white_space(s[0]) {
        let l = lemma_trim_start_shape(s.drop_first());
        assert(s.drop_first().skip(l) =~= s.skip(l + 1));
        assert forall|i: int| 0 <= i < l + 1 implies is_white_space(#[trigger] s[i]) by {
            if i > 0 {
                assert(s[i] == s.drop_first()[i - 1]);
            }
        }
        l + 1
    } else {
        assert(s.skip(0) =~= s);
        0
    }
}

proof fn lemma_trim_end_shape(s: Seq<char>) -> (hi: int)
    ensures
        0 <= hi <= s.len(),
        trim_end(s) == s.take(hi),
        forall|i: int| hi <= i < s.len() ==> is_white_space(#[trigger] s[i]),
        hi > 0 ==> !is_white_space(s[hi - 1]),
    decreases s.len(),
{
    if s.len() > 0 && is_white_space(s.last()) {
        let h = lemma_trim_end_shape(s.drop_last());
        assert(s.drop_last().take(h) =~= s.take(h));
        assert forall|i: int| h <= i < s.len() implies is_white_space(#[trigger] s[i]) by {
            if i < s.len() - 1 {
                assert(s[i] == s.drop_last()[i]);
            }
        }
        h
    } else {
        assert(s.take(s.len() as int) =~= s);
        s.len() as int
    }
}

/// Trimming removes white space at both ends and nothing else: the trimmed
/// text is a contiguous part of the original, everything cut off is white
/// space, and the trimmed text neither starts nor ends with white space.
pub proof fn lemma_trim_removes_only_outer_white_space(s: Seq<char>)
    ensures
        exists|lo: int, hi: int|
            {
                &&& 0 <= lo <= hi <= s.len()
                &&& trimmed(s) == s.subrange(lo, hi)
                &&& forall|i: int| 0 <= i < lo ==> is_white_space(#[trigger] s[i])
                &&& forall|i: int| hi <= i < s.len() ==> is_white_space(#[trigger] s[i])
            },
        trimmed(s).len() > 0 ==> !is_white_space(trimmed(s)[0]) && !is_white_space(
            trimmed(s).last(),
        ),
{
    let lo = lemma_trim_start_shape(s);
    let rest = s.skip(lo);
    let h = lemma_trim_end_shape(rest);
    let hi = lo + h;
    assert(rest.take(h) =~= s.subrange(lo, hi));
    assert forall|i: int| hi <= i < s.len() implies is_white_space(#[trigger] s[i]) by {
        assert(s[i] == rest[i - lo]);
    }
    assert(trimmed(s) == s.subrange(lo, hi));
    if h > 0 {
        assert(rest[0] == s[lo]);
    }
}

} // verus!

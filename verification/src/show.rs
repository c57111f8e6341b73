//! Looking a memory up by file name or name, and the text that shows it.

use crate::date::date_text;
use crate::schema::MemoryFile;
use crate::text::{
    chars_of, compare_text, contains_text, has_infix, join, join_texts, lowercase, to_lowercase,
    trim, trimmed, views,
};
use vstd::prelude::*;

verus! {

/// A memory answers a query when, compared in lowercase, its file name is the
/// query or the query with `.md` added, or its name contains the query.
pub open spec fn matches_query(mf: MemoryFile, query: Seq<char>) -> bool {
    let f = lowercase(mf.file_name@);
    let q = lowercase(query);
    ||| f == q
    ||| f == q + ".md"@
    ||| has_infix(lowercase(mf.frontmatter.name@), q)
}

/// Whether a memory answers a query.
pub fn answers(mf: &MemoryFile, query: &str) -> (b: bool)
    ensures
        b == matches_query(*mf, query@),
{
    let f = chars_of(to_lowercase(mf.file_name.as_str()).as_str());
    let q_text = to_lowercase(query);
    let q = chars_of(q_text.as_str());
    if compare_text(&f, &q) == 0 {
        return true;
    }
    let mut q_md = q_text.clone();
    q_md.append(".md");
    let qm = chars_of(q_md.as_str());
    if compare_text(&f, &qm) == 0 {
        return true;
    }
    let n = chars_of(to_lowercase(mf.frontmatter.name.as_str()).as_str());
    contains_text(&n, &q)
}

/// The first memory that answers the query, if any.
pub fn find(memories: &Vec<MemoryFile>, query: &str) -> (r: Option<usize>)
    ensures
        match r {
            Some(i) => i < memories.len() && matches_query(memories@[i as int], query@) && forall|
                j: int,
            | 0 <= j < i ==> !matches_query(#[trigger] memories@[j], query@),
            None => forall|j: int|
                0 <= j < memories.len() ==> !matches_query(#[trigger] memories@[j], query@),
        },
{
    let mut i: usize = 0;
    while i < memories.len()
        invariant
            i <= memories.len(),
            forall|j: int| 0 <= j < i ==> !matches_query(#[trigger] memories@[j], query@),
        decreases memories.len() - i,
    {
        if answers(&memories[i], query) {
            return Some(i);
        }
        i = i + 1;
    }
    None
}

/// The `superseded_by` line, when the field is present.
pub open spec fn supersession_line(fm: crate::schema::Frontmatter) -> Seq<char> {
    match fm.superseded_by {
        Some(s) => "superseded_by: "@ + s@ + "\n"@,
        None => seq![],
    }
}

/// The `valid_until` line, when the field is present.
pub open spec fn valid_until_line(fm: crate::schema::Frontmatter) -> Seq<char> {
    match fm.valid_until {
        Some(d) => "valid_until: "@ + date_text(d.ymd()) + "\n"@,
        None => seq![],
    }
}

/// The `tags` line, when there are tags.
pub open spec fn tags_line(fm: crate::schema::Frontmatter) -> Seq<char> {
    if fm.tags.len() > 0 {
        "tags: "@ + join(views(fm.tags@), ", "@) + "\n"@
    } else {
        seq![]
    }
}

/// The text that shows a memory: its fields, one per line (the optional
/// ones only when present), `---`, then the trimmed body.
pub open spec fn shown_text(mf: MemoryFile) -> Seq<char> {
    let fm = mf.frontmatter;
    "name: "@ + fm.name@ + "\n"@ + "type: "@ + fm.memory_type.label_text() + "\n"@
        + "description: "@ + fm.description@ + "\n"@ + supersession_line(fm) + valid_until_line(fm)
        + tags_line(fm) + "---\n"@ + trimmed(mf.body@) + "\n"@
}

fn optional_lines(mf: &MemoryFile) -> (r: String)
    ensures
        r@ == supersession_line(mf.frontmatter) + valid_until_line(mf.frontmatter) + tags_line(
            mf.frontmatter,
        ),
{
    let fm = &mf.frontmatter;
    let mut r = String::new();
    match &fm.superseded_by {
        Some(s) => {
            r.append("superseded_by: ");
            r.append(s.as_str());
            r.append("\n");
        },
        None => {},
    }
    assert(r@ =~= supersession_line(mf.frontmatter));
    let ghost a = r@;
    match &fm.valid_until {
        Some(d) => {
            r.append("valid_until: ");
            let t = d.to_text();
            r.append(t.as_str());
            r.append("\n");
        },
        None => {},
    }
    assert(r@ =~= a + valid_until_line(mf.frontmatter));
    let ghost b = r@;
    if fm.tags.len() > 0 {
        r.append("tags: ");
        let t = join_texts(&fm.tags, ", ");
        r.append(t.as_str());
        r.append("\n");
    }
    assert(r@ =~= b + tags_line(mf.frontmatter));
    r
}

/// The text that shows a memory.
pub fn render(mf: &MemoryFile) -> (r: String)
    ensures
        r@ == shown_text(*mf),
{
    let fm = &mf.frontmatter;
    let mut r = String::new();
    r.append("name: ");
    r.append(fm.name.as_str());
    r.append("\n");
    r.append("type: ");
    r.append(fm.memory_type.label());
    r.append("\n");
    r.append("description: ");
    r.append(fm.description.as_str());
    r.append("\n");
    let o = optional_lines(mf);
    r.append(o.as_str());
    r.append("---\n");
    let b = trim(mf.body.as_str());
    r.append(b.as_str());
    r.append("\n");
    r
}

} // verus!

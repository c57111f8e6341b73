//! Memory files: their front matter, how a document splits into front matter
//! and body, which directory entries are memory files, and how a memory file
//! is written back.

use crate::date::{ymd_le, Date};
use crate::order::{is_sorted_selection, sort_selection, texts_of};
use crate::text::{
    chars_of, compare_text, lemma_text_lt_asymmetric, shares_prefix, text_lt, trim, trimmed, views,
};
use std::collections::HashMap;
use vstd::prelude::*;

verus! {

/// A YAML value of a front matter field that this library does not read; it
/// is carried through unchanged.
#[verifier::external_type_specification]
#[verifier::external_body]
pub struct ExYamlValue(serde_yaml::Value);

/// The kind of a memory.
#[derive(Clone, Copy, Debug, PartialEq, Eq)]
pub enum MemoryType {
    User,
    Feedback,
    Project,
    Reference,
}

impl MemoryType {
    /// The name of the kind, as it is written in front matter and in the index.
    pub open spec fn label_text(self) -> Seq<char> {
        match self {
            MemoryType::User => "user"@,
            MemoryType::Feedback => "feedback"@,
            MemoryType::Project => "project"@,
            MemoryType::Reference => "reference"@,
        }
    }

    /// The position of the kind when kinds are ordered by name.
    pub open spec fn rank(self) -> u8 {
        match self {
            MemoryType::Feedback => 0,
            MemoryType::Project => 1,
            MemoryType::Reference => 2,
            MemoryType::User => 3,
        }
    }

    /// The name of the kind: `user`, `feedback`, `project` or `reference`.
    pub fn label(&self) -> (s: &'static str)
        ensures
            s@ == self.label_text(),
    {
        match self {
            MemoryType::User => "user",
            MemoryType::Feedback => "feedback",
            MemoryType::Project => "project",
            MemoryType::Reference => "reference",
        }
    }

    pub fn rank_of(&self) -> (r: u8)
        ensures
            r == self.rank(),
    {
        match self {
            MemoryType::Feedback => 0,
            MemoryType::Project => 1,
            MemoryType::Reference => 2,
            MemoryType::User => 3,
        }
    }
}

/// Ordering kinds by their names is ordering them by rank: feedback, project,
/// reference, user.
pub proof fn lemma_label_order(a: MemoryType, b: MemoryType)
    ensures
        text_lt(a.label_text(), b.label_text()) <==> a.rank() < b.rank(),
        a.label_text() == b.label_text() <==> a == b,
{
    reveal_strlit("user");
    reveal_strlit("feedback");
    reveal_strlit("project");
    reveal_strlit("reference");
    let la = a.label_text();
    let lb = b.label_text();
    assert(shares_prefix(la, lb, 0));
    assert(shares_prefix(lb, la, 0));
    if a.rank() < b.rank() {
        assert(text_lt(la, lb));
    } else if b.rank() < a.rank() {
        assert(text_lt(lb, la));
        lemma_text_lt_asymmetric(lb, la);
    } else {
        if text_lt(la, lb) {
            lemma_text_lt_asymmetric(la, lb);
        }
    }
    if a != b {
        assert(la[0] != lb[0]);
    }
}

/// The front matter of a memory file.
pub struct Frontmatter {
    pub name: String,
    pub description: String,
    pub memory_type: MemoryType,
    pub superseded_by: Option<String>,
    pub valid_until: Option<Date>,
    pub tags: Vec<String>,
    /// Fields this library does not know, kept for writing the file back.
    pub extra: HashMap<String, serde_yaml::Value>,
}

/// A parsed memory file: its name in the memory directory, its front matter
/// and its body.
pub struct MemoryFile {
    pub file_name: String,
    pub frontmatter: Frontmatter,
    pub body: String,
}

impl MemoryFile {
    /// Another memory replaces this one.
    pub open spec fn is_superseded(self) -> bool {
        self.frontmatter.superseded_by is Some
    }

    /// The memory's `valid_until` day has come by `today`.
    pub open spec fn is_expired_on(self, today: Date) -> bool {
        match self.frontmatter.valid_until {
            Some(d) => ymd_le(d.ymd(), today.ymd()),
            None => false,
        }
    }

    /// Neither superseded nor expired.
    pub open spec fn is_active_on(self, today: Date) -> bool {
        !self.is_superseded() && !self.is_expired_on(today)
    }

    pub fn superseded(&self) -> (b: bool)
        ensures
            b == self.is_superseded(),
    {
        self.frontmatter.superseded_by.is_some()
    }

    pub fn expired_on(&self, today: &Date) -> (b: bool)
        ensures
            b == self.is_expired_on(*today),
    {
        match &self.frontmatter.valid_until {
            Some(d) => d.is_on_or_before(today),
            None => false,
        }
    }

    pub fn active_on(&self, today: &Date) -> (b: bool)
        ensures
            b == self.is_active_on(*today),
    {
        !self.superseded() && !self.expired_on(today)
    }
}

/// A document split into its front matter (YAML text) and its body.
pub struct Document {
    pub front_matter: String,
    pub body: String,
}

/// Why a document is not a memory file.
#[derive(Clone, Copy, Debug, PartialEq, Eq)]
pub enum SchemaError {
    /// No front matter, or only white space in it.
    MissingFrontmatter,
}

/// The front matter and the content that gray_matter's
/// `Matter::<YAML>::parse` splits a document into.
pub uninterp spec fn gray_matter_split(input: Seq<char>) -> (Seq<char>, Seq<char>);

/// gray_matter's `Matter::<YAML>::parse` with the default `---` delimiter:
/// gives the front matter text and the content after it.  What they are is
/// named, not stated: the split depends on the input alone.
#[verifier::external_body]
fn split_front_matter(input: &str) -> (r: (String, String))
    ensures
        (r.0@, r.1@) == gray_matter_split(input@),
{
    let entity = gray_matter::Matter::<gray_matter::engine::YAML>::new().parse(input);
    (entity.matter, entity.content)
}

/// The outcome of reading a document whose front matter text is `matter` and
/// whose content is `content`.
pub open spec fn document_outcome(matter: Seq<char>, content: Seq<char>, r: Result<Document, SchemaError>) -> bool {
    match r {
        Ok(doc) => trimmed(matter).len() > 0 && doc.front_matter@ == trimmed(matter)
            && doc.body@ == content,
        Err(e) => trimmed(matter).len() == 0 && e == SchemaError::MissingFrontmatter,
    }
}

/// Builds the document from a split: the front matter, trimmed, must hold
/// something.
pub fn document_from_parts(matter: &str, content: String) -> (r: Result<Document, SchemaError>)
    ensures
        document_outcome(matter@, content@, r),
{
    let yaml = trim(matter);
    if yaml.as_str().is_empty() {
        Err(SchemaError::MissingFrontmatter)
    } else {
        Ok(Document { front_matter: yaml, body: content })
    }
}

/// Splits a memory document into front matter and body.
pub fn split_document(raw: &str) -> (r: Result<Document, SchemaError>)
    ensures
        document_outcome(gray_matter_split(raw@).0, gray_matter_split(raw@).1, r),
{
    let (matter, content) = split_front_matter(raw);
    document_from_parts(matter.as_str(), content)
}

/// A directory entry named `n` is a memory file: its extension is `md` and
/// it is not the index `MEMORY.md`.
pub open spec fn is_memory_file_name(n: Seq<char>) -> bool {
    &&& n.len() > 3
    &&& n[n.len() - 3] == '.'
    &&& n[n.len() - 2] == 'm'
    &&& n[n.len() - 1] == 'd'
    &&& n != "MEMORY.md"@
}

pub fn memory_file_name(n: &str) -> (b: bool)
    ensures
        b == is_memory_file_name(n@),
{
    let cs = chars_of(n);
    let len = cs.len();
    if len <= 3 || cs[len - 3] != '.' || cs[len - 2] != 'm' || cs[len - 1] != 'd' {
        return false;
    }
    let index_name = chars_of("MEMORY.md");
    compare_text(&cs, &index_name) != 0
}

/// `order` lists the memory files among `names` in code point order.
pub open spec fn is_listing_order(names: Seq<Seq<char>>, order: Seq<usize>) -> bool {
    is_sorted_selection(
        Seq::new(names.len(), |i: int| 0u8),
        names,
        Seq::new(names.len(), |i: int| is_memory_file_name(names[i])),
        order,
    )
}

/// The memory files among the names of a directory's entries, sorted.
pub fn discover(names: &Vec<String>) -> (files: Vec<String>)
    ensures
        exists|order: Seq<usize>|
            is_listing_order(views(names@), order) && views(files@) == order.map_values(
                |i: usize| names@[i as int]@,
            ),
{
    let mut ranks: Vec<u8> = Vec::new();
    let mut texts: Vec<Vec<char>> = Vec::new();
    let mut selected: Vec<bool> = Vec::new();
    let mut i: usize = 0;
    while i < names.len()
        invariant
            i <= names.len(),
            ranks.len() == i,
            texts.len() == i,
            selected.len() == i,
            forall|k: int| 0 <= k < i ==> ranks@[k] == 0u8,
            forall|k: int| 0 <= k < i ==> (#[trigger] texts@[k])@ == names@[k]@,
            forall|k: int| 0 <= k < i ==> selected@[k] == is_memory_file_name(names@[k]@),
        decreases names.len() - i,
    {
        ranks.push(0);
        texts.push(chars_of(names[i].as_str()));
        selected.push(memory_file_name(names[i].as_str()));
        i = i + 1;
    }
    let order = sort_selection(&ranks, &texts, &selected);
    assert(ranks@ =~= Seq::new(names@.len(), |i: int| 0u8));
    assert(texts_of(texts@) =~= views(names@));
    assert(selected@ =~= Seq::new(
        names@.len(),
        |i: int| is_memory_file_name(views(names@)[i]),
    ));
    let mut files: Vec<String> = Vec::new();
    let mut k: usize = 0;
    while k < order.len()
        invariant
            k <= order.len(),
            is_sorted_selection(ranks@, texts_of(texts@), selected@, order@),
            selected.len() == names.len(),
            views(files@) == order@.take(k as int).map_values(|i: usize| names@[i as int]@),
        decreases order.len() - k,
    {
        let idx = order[k];
        assert(order@[k as int] < selected@.len());
        let ghost before = files@;
        files.push(names[idx].clone());
        assert(files@ == before.push(names@[idx as int]));
        let ghost want = order@.take(k + 1).map_values(|i: usize| names@[i as int]@);
        let ghost had = order@.take(k as int).map_values(|i: usize| names@[i as int]@);
        assert(views(before).len() == before.len());
        assert(had.len() == k);
        assert(before.len() == k);
        assert forall|j: int| 0 <= j < k + 1 implies views(files@)[j] == want[j] by {
            if j < k {
                assert(views(before)[j] == had[j]);
                assert(files@[j] == before[j]);
            }
        }
        assert(views(files@) =~= want);
        k = k + 1;
    }
    assert(order@.take(k as int) =~= order@);
    assert(is_listing_order(views(names@), order@));
    files
}

/// The text of a memory file with front matter `yaml` (as a YAML serializer
/// writes it, ending in a line break) and body `body`.
pub open spec fn document_text(yaml: Seq<char>, body: Seq<char>) -> Seq<char> {
    "---\n"@ + yaml + "---\n\n"@ + trimmed(body) + "\n"@
}

/// Frames a memory file: front matter between `---` lines, a blank line, the
/// trimmed body and a final line break.
pub fn render_document(yaml: &str, body: &str) -> (r: String)
    ensures
        r@ == document_text(yaml@, body@),
{
    let mut r = String::new();
    r.append("---\n");
    r.append(yaml);
    r.append("---\n\n");
    let b = trim(body);
    r.append(b.as_str());
    r.append("\n");
    r
}

} // verus!

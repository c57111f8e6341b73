//! Rewriting memory files with every front matter field written out.

use crate::schema::{document_text, render_document};
use vstd::prelude::*;

verus! {

/// The new text of a memory file whose front matter serializes to `yaml` and
/// whose body is `body`, or `None` when the file already reads `original`.
pub fn rewrite(yaml: &str, body: &str, original: &str) -> (r: Option<String>)
    ensures
        match r {
            Some(t) => t@ == document_text(yaml@, body@) && t@ != original@,
            None => document_text(yaml@, body@) == original@,
        },
{
    let text = render_document(yaml, body);
    let current = original.to_owned();
    if text == current {
        None
    } else {
        Some(text)
    }
}

} // verus!

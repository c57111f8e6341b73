//! Marking a memory as replaced by another.

use crate::schema::Frontmatter;
use crate::text::{chars_of, compare_text};
use vstd::prelude::*;

verus! {

/// Why a supersession is refused.
#[derive(Clone, Copy, Debug, PartialEq, Eq)]
pub enum SupersedeError {
    /// The old and the new file are the same.
    SelfSupersession,
    /// The old file does not exist.
    OldMissing,
    /// The new file does not exist: it must be written first.
    NewMissing,
}

/// Whether old file `old` may be marked as replaced by `new`, checked in
/// this order: they differ, the old one exists, the new one exists.
pub open spec fn request_outcome(old: Seq<char>, new: Seq<char>, old_exists: bool, new_exists: bool) -> Result<(), SupersedeError> {
    if old == new {
        Err(SupersedeError::SelfSupersession)
    } else if !old_exists {
        Err(SupersedeError::OldMissing)
    } else if !new_exists {
        Err(SupersedeError::NewMissing)
    } else {
        Ok(())
    }
}

pub fn check_request(old_name: &str, new_name: &str, old_exists: bool, new_exists: bool) -> (r:
    Result<(), SupersedeError>)
    ensures
        r == request_outcome(old_name@, new_name@, old_exists, new_exists),
{
    let a = chars_of(old_name);
    let b = chars_of(new_name);
    if compare_text(&a, &b) == 0 {
        Err(SupersedeError::SelfSupersession)
    } else if !old_exists {
        Err(SupersedeError::OldMissing)
    } else if !new_exists {
        Err(SupersedeError::NewMissing)
    } else {
        Ok(())
    }
}

/// The front matter with `superseded_by` set to `new_name`; nothing else
/// changes.
pub fn mark(fm: Frontmatter, new_name: &str) -> (r: Frontmatter)
    ensures
        r.superseded_by matches Some(s) && s@ == new_name@,
        r.name == fm.name,
        r.description == fm.description,
        r.memory_type == fm.memory_type,
        r.valid_until == fm.valid_until,
        r.tags == fm.tags,
        r.extra == fm.extra,
{
    let mut r = fm;
    r.superseded_by = Some(new_name.to_owned());
    r
}

} // verus!

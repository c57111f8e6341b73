//! Consistency checks over parsed memory files.

use crate::date::{date_text, today, ymd_le, Date};
use crate::schema::MemoryFile;
use vstd::prelude::*;

verus! {

/// A finding about one memory file: an error fails validation, a warning
/// does not.
pub struct Diagnostic {
    pub is_error: bool,
    pub message: String,
}

impl View for Diagnostic {
    type V = (bool, Seq<char>);

    open spec fn view(&self) -> (bool, Seq<char>) {
        (self.is_error, self.message@)
    }
}

pub open spec fn diagnostic_views(ds: Seq<Diagnostic>) -> Seq<(bool, Seq<char>)> {
    ds.map_values(|d: Diagnostic| d@)
}

/// The findings about one memory file: `superseded_by` must name another
/// file, one that exists (`target_exists` says whether it does); a
/// `valid_until` day that has come by `today` is a warning.
pub open spec fn file_diagnostics(mf: MemoryFile, target_exists: bool, today: Date) -> Seq<
    (bool, Seq<char>),
> {
    let f = mf.file_name@;
    let supersession = match mf.frontmatter.superseded_by {
        Some(t) => if t@ == f {
            seq![(true, f + ": superseded_by references itself"@)]
        } else if !target_exists {
            seq![(true, f + ": superseded_by target '"@ + t@ + "' does not exist"@)]
        } else {
            seq![]
        },
        None => seq![],
    };
    let expiry = match mf.frontmatter.valid_until {
        Some(d) => if ymd_le(d.ymd(), today.ymd()) {
            seq![(false, "warn: "@ + f + ": valid_until "@ + date_text(d.ymd()) + " is in the past"@)]
        } else {
            seq![]
        },
        None => seq![],
    };
    supersession + expiry
}

/// The findings about all memory files, file by file.
pub open spec fn all_diagnostics(ms: Seq<MemoryFile>, target_exists: Seq<bool>, today: Date) -> Seq<
    (bool, Seq<char>),
>
    decreases ms.len(),
{
    if ms.len() == 0 {
        seq![]
    } else {
        all_diagnostics(ms.drop_last(), target_exists.drop_last(), today) + file_diagnostics(
            ms.last(),
            target_exists.last(),
            today,
        )
    }
}

/// The findings about one memory file on `today`.
pub fn check_file_on(mf: &MemoryFile, target_exists: bool, today: &Date) -> (r: Vec<Diagnostic>)
    ensures
        diagnostic_views(r@) == file_diagnostics(*mf, target_exists, *today),
{
    let mut r: Vec<Diagnostic> = Vec::new();
    match &mf.frontmatter.superseded_by {
        Some(t) => {
            if *t == mf.file_name {
                let mut m = String::new();
                m.append(mf.file_name.as_str());
                m.append(": superseded_by references itself");
                r.push(Diagnostic { is_error: true, message: m });
            } else if !target_exists {
                let mut m = String::new();
                m.append(mf.file_name.as_str());
                m.append(": superseded_by target '");
                m.append(t.as_str());
                m.append("' does not exist");
                r.push(Diagnostic { is_error: true, message: m });
            }
        },
        None => {},
    }
    let ghost first = r@;
    match &mf.frontmatter.valid_until {
        Some(d) => {
            if d.is_on_or_before(today) {
                let mut m = String::new();
                m.append("warn: ");
                m.append(mf.file_name.as_str());
                m.append(": valid_until ");
                let t = d.to_text();
                m.append(t.as_str());
                m.append(" is in the past");
                r.push(Diagnostic { is_error: false, message: m });
            }
        },
        None => {},
    }
    assert(diagnostic_views(r@) =~= file_diagnostics(*mf, target_exists, *today));
    r
}

/// The findings about all memory files on `today`; `target_exists[i]` says
/// whether the file that memory `i` is superseded by exists.
pub fn check_on(memories: &Vec<MemoryFile>, target_exists: &Vec<bool>, today: &Date) -> (r: Vec<
    Diagnostic,
>)
    requires
        target_exists.len() == memories.len(),
    ensures
        diagnostic_views(r@) == all_diagnostics(memories@, target_exists@, *today),
{
    let mut r: Vec<Diagnostic> = Vec::new();
    let mut i: usize = 0;
    while i < memories.len()
        invariant
            i <= memories.len(),
            target_exists.len() == memories.len(),
            diagnostic_views(r@) == all_diagnostics(
                memories@.take(i as int),
                target_exists@.take(i as int),
                *today,
            ),
        decreases memories.len() - i,
    {
        let mut found = check_file_on(&memories[i], target_exists[i], today);
        let ghost before = r@;
        let ghost add = found@;
        r.append(&mut found);
        proof {
            assert(memories@.take(i + 1).drop_last() =~= memories@.take(i as int));
            assert(target_exists@.take(i + 1).drop_last() =~= target_exists@.take(i as int));
            assert(diagnostic_views(r@) =~= diagnostic_views(before) + diagnostic_views(add));
        }
        i = i + 1;
    }
    assert(memories@.take(i as int) =~= memories@);
    assert(target_exists@.take(i as int) =~= target_exists@);
    r
}

/// Validation passes when every file parsed and no finding is an error.
pub fn passes(parse_failures: usize, diagnostics: &Vec<Diagnostic>) -> (b: bool)
    ensures
        b == (parse_failures == 0 && forall|i: int|
            0 <= i < diagnostics@.len() ==> !(#[trigger] diagnostics@[i]).is_error),
{
    if parse_failures != 0 {
        return false;
    }
    let mut i: usize = 0;
    while i < diagnostics.len()
        invariant
            i <= diagnostics.len(),
            forall|k: int| 0 <= k < i ==> !(#[trigger] diagnostics@[k]).is_error,
        decreases diagnostics.len() - i,
    {
        if diagnostics[i].is_error {
            return false;
        }
        i = i + 1;
    }
    true
}

/// The findings about all memory files today.  The date is the machine's;
/// nothing is stated of which day it is.
pub fn run(memories: &Vec<MemoryFile>, target_exists: &Vec<bool>) -> (r: Vec<Diagnostic>)
    requires
        target_exists.len() == memories.len(),
    ensures
        exists|day: Date| diagnostic_views(r@) == all_diagnostics(memories@, target_exists@, day),
{
    let day = today();
    check_on(memories, target_exists, &day)
}

} // verus!

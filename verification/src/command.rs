//! Initializing a project with a descriptor.
//!
//! A fresh project gets the fixed built-in template document, written
//! verbatim under the descriptor filename; a project that already has one is
//! left untouched and the conflict is reported instead of overwriting.  The
//! decision is made here from the path and whether a file already stands at
//! it; the surrounding binary checks the filesystem and performs the write
//! or prints the report.

use vstd::prelude::*;

verus! {

/// The text of the built-in template document.
pub open spec fn spec_default_prown() -> Seq<char> {
    ("[commands]\nbuild = \"make\"\n\n[src]\nchange = \"*\"\nrun = \"make\"\n")@
}

/// The built-in template document written into a fresh project, verbatim.
pub fn default_prown() -> (r: &'static str)
    ensures
        r@ == spec_default_prown(),
{
    "[commands]\nbuild = \"make\"\n\n[src]\nchange = \"*\"\nrun = \"make\"\n"
}

/// The report printed when a descriptor already stands at the path.
pub open spec fn spec_exists_message(path: Seq<char>) -> Seq<char> {
    ("Prown file already exist: ")@ + path
}

/// What initializing a project comes to.
pub enum InitPlan {
    /// Write these contents verbatim to the descriptor path.
    WriteTemplate(String),
    /// A descriptor already stands at the path: leave it and report this.
    Conflict(String),
}

/// Decide what initializing a project at the descriptor path does: write the
/// built-in template verbatim when no descriptor exists there yet, and
/// otherwise change nothing and report the conflict.
pub fn init(path: &str, descriptor_exists: bool) -> (r: InitPlan)
    ensures
        !descriptor_exists ==> (r matches InitPlan::WriteTemplate(c) && c@
            == spec_default_prown()),
        descriptor_exists ==> (r matches InitPlan::Conflict(m) && m@ == spec_exists_message(
            path@,
        )),
{
    if descriptor_exists {
        let mut m = String::from_str("Prown file already exist: ");
        m.append(path);
        InitPlan::Conflict(m)
    } else {
        InitPlan::WriteTemplate(String::from_str(default_prown()))
    }
}

} // verus!

//! Error kinds of the library.
//!
//! Parse-time errors abort the whole parse with the first error encountered;
//! every error renders as a single human-readable message that names the
//! offending section, key, pattern or path.

use vstd::prelude::*;

verus! {

/// The mathematical shape of a [`PError`]: each variant carries the views of
/// the strings the executable variant holds.
pub enum PErrorView {
    /// A top-level section's value is not a table; holds the section name.
    NotATable(Seq<char>),
    /// An unrecognized key inside a module; holds the key and the module name.
    CommandNotImplemented(Seq<char>, Seq<char>),
    /// A value has the wrong shape; holds the section and the key.
    BadValue(Seq<char>, Seq<char>),
    /// A glob failed to compile; holds the configured pattern text.
    PatternError(Seq<char>),
    /// No descriptor file is present; holds the project directory.
    MissingPrown(Seq<char>),
    /// A named command is absent from the registry; holds the command name
    /// and the descriptor path.
    MissingCommand(Seq<char>, Seq<char>),
}

/// An error of the descriptor parser, the registry or the watch engine.
#[derive(Debug)]
pub enum PError {
    /// A top-level section's value is not a table; holds the section name.
    NotATable(String),
    /// An unrecognized key inside a module; holds the key and the module name.
    CommandNotImplemented(String, String),
    /// A value under a recognized key has the wrong shape; holds the section
    /// and the key.
    BadValue(String, String),
    /// A glob failed to compile; holds the configured pattern text.
    PatternError(String),
    /// No descriptor file is present; holds the project directory.
    MissingPrown(String),
    /// A named command is absent from the registry; holds the command name
    /// and the descriptor path.
    MissingCommand(String, String),
}

impl View for PError {
    type V = PErrorView;

    open spec fn view(&self) -> PErrorView {
        match self {
            PError::NotATable(s) => PErrorView::NotATable(s@),
            PError::CommandNotImplemented(k, m) => PErrorView::CommandNotImplemented(k@, m@),
            PError::BadValue(s, k) => PErrorView::BadValue(s@, k@),
            PError::PatternError(p) => PErrorView::PatternError(p@),
            PError::MissingPrown(d) => PErrorView::MissingPrown(d@),
            PError::MissingCommand(c, p) => PErrorView::MissingCommand(c@, p@),
        }
    }
}

/// The single human-readable line that a [`PError`] renders as.
pub open spec fn spec_message(e: PErrorView) -> Seq<char> {
    match e {
        PErrorView::NotATable(s) => s + (" is not a table, replace it with [")@ + s + ("]")@,
        PErrorView::CommandNotImplemented(k, m) => ("The command ")@ + k + (" in module ")@ + m
            + (" is not implemented in prown")@,
        PErrorView::BadValue(s, k) => ("The value of ")@ + k + (" in [")@ + s
            + ("] must be a string or a list of strings")@,
        PErrorView::PatternError(p) => ("The pattern ")@ + p + (" is not a valid glob")@,
        PErrorView::MissingPrown(d) => ("There is no .prown.toml file in ")@ + d,
        PErrorView::MissingCommand(c, p) => ("There is no ")@ + c + (" command in ")@ + p + (
        "\nAdd '")@ + c + (" = \"<command>\"' in ")@ + p + (" under [commands] section")@,
    }
}

impl PError {
    /// Render the error as its single human-readable line.
    pub fn message(&self) -> (r: String)
        ensures
            r@ == spec_message(self@),
    {
        match self {
            PError::NotATable(s) => {
                let mut m = s.clone();
                m.append(" is not a table, replace it with [");
                m.append(s.as_str());
                m.append("]");
                proof {
                    assert(m@ =~= spec_message(self@));
                }
                m
            },
            PError::CommandNotImplemented(k, m) => {
                let mut out = String::from_str("The command ");
                out.append(k.as_str());
                out.append(" in module ");
                out.append(m.as_str());
                out.append(" is not implemented in prown");
                proof {
                    assert(out@ =~= spec_message(self@));
                }
                out
            },
            PError::BadValue(s, k) => {
                let mut out = String::from_str("The value of ");
                out.append(k.as_str());
                out.append(" in [");
                out.append(s.as_str());
                out.append("] must be a string or a list of strings");
                proof {
                    assert(out@ =~= spec_message(self@));
                }
                out
            },
            PError::PatternError(p) => {
                let mut out = String::from_str("The pattern ");
                out.append(p.as_str());
                out.append(" is not a valid glob");
                proof {
                    assert(out@ =~= spec_message(self@));
                }
                out
            },
            PError::MissingPrown(d) => {
                let mut out = String::from_str("There is no .prown.toml file in ");
                out.append(d.as_str());
                proof {
                    assert(out@ =~= spec_message(self@));
                }
                out
            },
            PError::MissingCommand(c, p) => {
                let mut out = String::from_str("There is no ");
                out.append(c.as_str());
                out.append(" command in ");
                out.append(p.as_str());
                out.append("\nAdd '");
                out.append(c.as_str());
                out.append(" = \"<command>\"' in ");
                out.append(p.as_str());
                out.append(" under [commands] section");
                proof {
                    assert(out@ =~= spec_message(self@));
                }
                out
            },
        }
    }
}

} // verus!

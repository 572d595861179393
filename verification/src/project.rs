//! A project directory and the descriptor it may carry.
//!
//! A project is a directory together with its parsed descriptor, when the
//! directory holds one.  Everything that reads the filesystem — discovering
//! whether the descriptor file exists, reading it, running the watch loop —
//! lives in the surrounding binary, which hands the parsed pieces in as
//! plain values.

use vstd::prelude::*;

use crate::error::{PError, PErrorView};
use crate::parser::{command_args, command_program};
use crate::prown::{registry_lookup, Prown, PrownView};

verus! {

/// The mathematical shape of a [`Project`].
pub struct ProjectView {
    pub dir: Seq<char>,
    pub prown: Option<PrownView>,
}

/// The directory path with its trailing separators stripped.
pub open spec fn strip_trailing_seps(s: Seq<char>) -> Seq<char>
    decreases s.len(),
{
    if s.len() == 0 {
        s
    } else if s[s.len() - 1] == '/' {
        strip_trailing_seps(s.take(s.len() - 1))
    } else {
        s
    }
}

/// The part of a path after its last separator.
pub open spec fn last_component(s: Seq<char>) -> Seq<char>
    decreases s.len(),
{
    if s.len() == 0 {
        Seq::empty()
    } else if s[s.len() - 1] == '/' {
        Seq::empty()
    } else {
        last_component(s.take(s.len() - 1)).push(s[s.len() - 1])
    }
}

/// The project's name: the last non-empty component of its directory path —
/// trailing separators are stripped first, then everything after the last
/// remaining separator is the name.
pub open spec fn base_name(s: Seq<char>) -> Seq<char> {
    last_component(strip_trailing_seps(s))
}

/// A project: its directory and, when the directory holds a descriptor, the
/// parsed descriptor.
pub struct Project {
    dir: String,
    prown: Option<Prown>,
}

impl View for Project {
    type V = ProjectView;

    closed spec fn view(&self) -> ProjectView {
        ProjectView {
            dir: self.dir@,
            prown: match &self.prown {
                Some(p) => Some(p@),
                None => None,
            },
        }
    }
}

impl Project {
    /// A project over a directory, with or without a descriptor.
    pub fn new(dir: String, prown: Option<Prown>) -> (r: Project)
        ensures
            r@.dir == dir@,
            r@.prown is Some <==> prown is Some,
            prown matches Some(p) ==> r@.prown == Some(p@),
    {
        Project { dir, prown }
    }

    /// Whether the project carries a descriptor.
    pub fn has_prown(&self) -> (r: bool)
        ensures
            r == (self@.prown is Some),
    {
        self.prown.is_some()
    }

    /// The project's descriptor, when it has one.
    pub fn prown(&self) -> (r: &Option<Prown>)
        ensures
            r is Some <==> self@.prown is Some,
            r matches Some(p) ==> self@.prown == Some(p@),
    {
        &self.prown
    }

    /// The directory of the project.
    pub fn path(&self) -> (r: &String)
        ensures
            r@ == self@.dir,
    {
        &self.dir
    }

    /// The project's name: the last non-empty component of its directory
    /// path, with trailing separators ignored.
    pub fn name(&self) -> (r: String)
        ensures
            r@ == base_name(self@.dir),
    {
        let s = self.dir.as_str();
        let n = s.unicode_len();
        proof {
            assert(s@.take(n as int) =~= s@);
        }
        let mut end: usize = n;
        while end > 0 && s.get_char(end - 1) == '/'
            invariant
                n == s@.len(),
                0 <= end <= n,
                strip_trailing_seps(s@) == strip_trailing_seps(s@.take(end as int)),
            decreases end,
        {
            proof {
                assert(s@.take(end as int)[end - 1] == s@[end - 1]);
                assert(s@.take(end as int).take(end - 1) =~= s@.take(end as int - 1));
            }
            end = end - 1;
        }
        let ghost t = s@.take(end as int);
        proof {
            if end > 0 {
                assert(t[end - 1] == s@[end - 1]);
            }
            assert(strip_trailing_seps(t) == t);
        }
        let mut last: usize = 0;
        let mut has = false;
        let mut i: usize = 0;
        while i < end
            invariant
                n == s@.len(),
                0 <= i <= end <= n,
                t == s@.take(end as int),
                has ==> last < i && t[last as int] == '/' && (forall|k: int|
                    last < k < i ==> t[k] != '/'),
                (!has) ==> (forall|k: int| 0 <= k < i ==> t[k] != '/'),
            decreases end - i,
        {
            if s.get_char(i) == '/' {
                last = i;
                has = true;
            }
            i = i + 1;
        }
        let start = if has {
            last + 1
        } else {
            0
        };
        let sub = s.substring_char(start, end);
        proof {
            if has {
                lemma_last_component(t, last as int);
            } else {
                lemma_last_component(t, -1);
            }
            assert(sub@ =~= t.skip(start as int));
        }
        String::from_str(sub)
    }

    /// Resolve a named command of the project's descriptor for direct
    /// execution.  Without a descriptor the call fails with a
    /// missing-descriptor error naming the directory; with one it resolves
    /// exactly as the descriptor does.
    pub fn run(&self, command: &str) -> (r: Result<(String, Vec<String>), PError>)
        ensures
            self@.prown is None ==> (r matches Err(e) && e@ == PErrorView::MissingPrown(
                self@.dir,
            )),
            self@.prown matches Some(pv) ==> (match r {
                Ok(pair) => registry_lookup(pv.commands, command@) matches Some(raw) && pair.0@
                    == command_program(raw) && pair.1.deep_view() == command_args(raw),
                Err(e) => registry_lookup(pv.commands, command@) is None && e@
                    == PErrorView::MissingCommand(command@, pv.path),
            }),
    {
        match &self.prown {
            None => Err(PError::MissingPrown(self.dir.clone())),
            Some(p) => p.run(command),
        }
    }
}

/// After the last separator, the last component is exactly the remaining
/// suffix.
proof fn lemma_last_component(s: Seq<char>, j: int)
    requires
        -1 <= j < s.len(),
        j >= 0 ==> s[j] == '/',
        forall|k: int| j < k < s.len() ==> s[k] != '/',
    ensures
        last_component(s) =~= s.skip(j + 1),
    decreases s.len(),
{
    if s.len() == 0 {
        assert(s.skip(j + 1) =~= Seq::<char>::empty());
    } else if s[s.len() - 1] == '/' {
        assert(j == s.len() - 1);
        assert(s.skip(j + 1) =~= Seq::<char>::empty());
    } else {
        let t = s.take(s.len() - 1);
        assert(forall|k: int| j < k < t.len() ==> t[k] != '/');
        lemma_last_component(t, j);
        assert(last_component(s) =~= t.skip(j + 1).push(s[s.len() - 1]));
        assert(t.skip(j + 1).push(s[s.len() - 1]) =~= s.skip(j + 1));
    }
}

} // verus!

//! The descriptor model: modules and the command registry.
//!
//! A [`Module`] is a named unit holding compiled glob matchers for the files
//! it watches and an ordered run-list of raw command strings.  A [`Prown`]
//! owns the ordered module list and the name-to-command registry parsed from
//! the descriptor document, together with the descriptor's path.

use vstd::prelude::*;

use crate::error::{PError, PErrorView};
use crate::parser::{command_args, command_program, parse_command};
use crate::pattern::{first_bad_glob, glob_match, rooted, root_pattern, Matcher};

verus! {

/// The mathematical shape of a [`Module`]: its name, the rooted texts of its
/// compiled change patterns, and its raw run commands, all in declaration
/// order.
pub struct ModuleView {
    pub name: Seq<char>,
    pub change: Seq<Seq<char>>,
    pub run: Seq<Seq<char>>,
}

/// Whether at least one of the module's compiled patterns matches the path's
/// string form.
pub open spec fn module_matches(m: ModuleView, path: Seq<char>) -> bool {
    exists|i: int| 0 <= i < m.change.len() && #[trigger] glob_match(m.change[i], path)
}

/// A named unit of the descriptor: glob matchers for the files it cares
/// about, and the commands to run, in declaration order, when one matches.
pub struct Module {
    name: String,
    change: Vec<Matcher>,
    run: Vec<String>,
}

impl View for Module {
    type V = ModuleView;

    closed spec fn view(&self) -> ModuleView {
        ModuleView {
            name: self.name@,
            change: self.change@.map_values(|m: Matcher| m@),
            run: self.run.deep_view(),
        }
    }
}

impl Module {
    /// A module with the given name and no patterns or commands yet.  It
    /// matches no path and performs no action.
    pub fn new(name: &str) -> (r: Module)
        ensures
            r@.name == name@,
            r@.change == Seq::<Seq<char>>::empty(),
            r@.run == Seq::<Seq<char>>::empty(),
    {
        let r = Module { name: String::from_str(name), change: Vec::new(), run: Vec::new() };
        proof {
            assert(r@.change =~= Seq::<Seq<char>>::empty());
            assert(r@.run =~= Seq::<Seq<char>>::empty());
        }
        r
    }

    /// The name of the module.
    pub fn get_name(&self) -> (r: &str)
        ensures
            r@ == self@.name,
    {
        self.name.as_str()
    }

    /// Set the change patterns from their configured texts.  Every text is
    /// rooted with the recursive-directory prefix and compiled; the first
    /// text whose rooted form is not a valid glob fails the call with a
    /// pattern error naming that text, and the module is left as it was.  No
    /// pattern is ever silently dropped: on success the module holds one
    /// compiled matcher per configured text, in order.
    pub fn change(&mut self, change: Vec<String>) -> (r: Result<(), PError>)
        ensures
            r is Ok <==> first_bad_glob(change.deep_view()) is None,
            r is Ok ==> final(self)@ == (ModuleView {
                change: change.deep_view().map_values(|s: Seq<char>| rooted(s)),
                ..old(self)@
            }),
            r matches Err(e) ==> e@ == PErrorView::PatternError(
                first_bad_glob(change.deep_view())->0,
            ) && final(self)@ == old(self)@,
    {
        let ghost items = change.deep_view();
        let mut compiled: Vec<Matcher> = Vec::new();
        let mut i: usize = 0;
        proof {
            assert(items.skip(0) =~= items);
        }
        while i < change.len()
            invariant
                0 <= i <= change.len(),
                items == change.deep_view(),
                items.len() == change.len(),
                compiled@.len() == i,
                forall|j: int| 0 <= j < i ==> #[trigger] compiled@[j]@ == rooted(items[j]),
                first_bad_glob(items) == first_bad_glob(items.skip(i as int)),
            decreases change.len() - i,
        {
            proof {
                assert(items.skip(i as int).len() != 0);
                assert(items.skip(i as int)[0] == items[i as int]);
                assert(items.skip(i as int).drop_first() =~= items.skip(i as int + 1));
            }
            let rooted_text = root_pattern(change[i].as_str());
            match Matcher::new(rooted_text.as_str()) {
                Some(m) => {
                    compiled.push(m);
                },
                None => {
                    return Err(PError::PatternError(change[i].clone()));
                },
            }
            i = i + 1;
        }
        proof {
            assert(items.skip(change.len() as int).len() == 0);
        }
        self.change = compiled;
        proof {
            assert(self@.change =~= items.map_values(|s: Seq<char>| rooted(s)));
        }
        Ok(())
    }

    /// Whether the path's string form matches at least one of the module's
    /// patterns, short-circuiting on the first match.
    pub fn match_change(&self, path: &str) -> (r: bool)
        ensures
            r == module_matches(self@, path@),
    {
        let mut i: usize = 0;
        while i < self.change.len()
            invariant
                0 <= i <= self.change.len(),
                forall|j: int| 0 <= j < i ==> !#[trigger] glob_match(self@.change[j], path@),
            decreases self.change.len() - i,
        {
            if self.change[i].matches(path) {
                proof {
                    assert(glob_match(self@.change[i as int], path@));
                }
                return true;
            }
            i = i + 1;
        }
        false
    }

    /// Set the run-list: the raw command strings to execute, in declaration
    /// order, when a change matches.
    pub fn run(&mut self, run: Vec<String>) -> (r: ())
        ensures
            final(self)@ == (ModuleView { run: run.deep_view(), ..old(self)@ }),
    {
        self.run = run;
    }

    /// The raw command strings of the run-list, in declaration order.
    pub fn run_commands(&self) -> (r: &Vec<String>)
        ensures
            r.deep_view() == self@.run,
    {
        &self.run
    }
}

/// The order of a module's patterns does not affect the boolean answer of
/// matching: two modules whose pattern lists hold the same texts — as
/// multisets — match exactly the same paths.
pub proof fn lemma_matches_order_independent(m1: ModuleView, m2: ModuleView, path: Seq<char>)
    requires
        m1.change.to_multiset() == m2.change.to_multiset(),
    ensures
        module_matches(m1, path) == module_matches(m2, path),
{
    broadcast use vstd::seq_lib::group_to_multiset_ensures;

    if module_matches(m1, path) {
        let i = choose|i: int| 0 <= i < m1.change.len() && #[trigger] glob_match(
            m1.change[i],
            path,
        );
        assert(m1.change.contains(m1.change[i]));
        assert(m1.change.to_multiset().count(m1.change[i]) > 0);
        assert(m2.change.to_multiset().count(m1.change[i]) > 0);
        assert(m2.change.contains(m1.change[i]));
        let j = choose|j: int| 0 <= j < m2.change.len() && m2.change[j] == m1.change[i];
        assert(glob_match(m2.change[j], path));
    }
    if module_matches(m2, path) {
        let i = choose|i: int| 0 <= i < m2.change.len() && #[trigger] glob_match(
            m2.change[i],
            path,
        );
        assert(m2.change.contains(m2.change[i]));
        assert(m2.change.to_multiset().count(m2.change[i]) > 0);
        assert(m1.change.to_multiset().count(m2.change[i]) > 0);
        assert(m1.change.contains(m2.change[i]));
        let j = choose|j: int| 0 <= j < m1.change.len() && m1.change[j] == m2.change[i];
        assert(glob_match(m1.change[j], path));
    }
}

/// The mathematical shape of a [`Prown`]: the descriptor path, the module
/// views in declaration order, and the registry entries in document order.
pub struct PrownView {
    pub path: Seq<char>,
    pub modules: Seq<ModuleView>,
    pub commands: Seq<(Seq<char>, Seq<char>)>,
}

/// The raw command string registered under a name, going by the first entry
/// that carries the name.
pub open spec fn registry_lookup(cmds: Seq<(Seq<char>, Seq<char>)>, name: Seq<char>) -> Option<
    Seq<char>,
>
    decreases cmds.len(),
{
    if cmds.len() == 0 {
        None
    } else if cmds[0].0 == name {
        Some(cmds[0].1)
    } else {
        registry_lookup(cmds.drop_first(), name)
    }
}

/// The indices below `n` of the modules that match the path, in increasing
/// order.
pub open spec fn matching_upto(ms: Seq<ModuleView>, path: Seq<char>, n: int) -> Seq<int>
    decreases n,
{
    if n <= 0 {
        Seq::empty()
    } else if module_matches(ms[n - 1], path) {
        matching_upto(ms, path, n - 1).push(n - 1)
    } else {
        matching_upto(ms, path, n - 1)
    }
}

/// The indices of the modules that match the path, in declaration order.
pub open spec fn matching_indices(ms: Seq<ModuleView>, path: Seq<char>) -> Seq<int> {
    matching_upto(ms, path, ms.len() as int)
}

/// The parsed descriptor: the ordered module list and the command registry,
/// together with the path of the document they came from.  Immutable once
/// constructed.
pub struct Prown {
    path: String,
    modules: Vec<Module>,
    commands: Vec<(String, String)>,
}

impl View for Prown {
    type V = PrownView;

    closed spec fn view(&self) -> PrownView {
        PrownView {
            path: self.path@,
            modules: self.modules@.map_values(|m: Module| m@),
            commands: self.commands.deep_view(),
        }
    }
}

impl Prown {
    /// A descriptor assembled from its parts.
    pub fn new(path: String, modules: Vec<Module>, commands: Vec<(String, String)>) -> (r: Prown)
        ensures
            r@.path == path@,
            r@.modules == modules@.map_values(|m: Module| m@),
            r@.commands == commands.deep_view(),
    {
        Prown { path, modules, commands }
    }

    /// The path of the descriptor document.
    pub fn path(&self) -> (r: &str)
        ensures
            r@ == self@.path,
    {
        self.path.as_str()
    }

    /// The modules, in declaration order.
    pub fn modules(&self) -> (r: &Vec<Module>)
        ensures
            r@.map_values(|m: Module| m@) == self@.modules,
    {
        &self.modules
    }

    /// The registry entries, in document order.
    pub fn commands(&self) -> (r: &Vec<(String, String)>)
        ensures
            r.deep_view() == self@.commands,
    {
        &self.commands
    }

    /// Resolve a named command for direct execution.  A name absent from the
    /// registry fails with a missing-command error carrying the name and the
    /// descriptor path; a present name yields the command's program and
    /// argument list, tokenized on whitespace.
    pub fn run(&self, command: &str) -> (r: Result<(String, Vec<String>), PError>)
        ensures
            match r {
                Ok(pair) => registry_lookup(self@.commands, command@) matches Some(raw)
                    && pair.0@ == command_program(raw) && pair.1.deep_view() == command_args(raw),
                Err(e) => registry_lookup(self@.commands, command@) is None && e@
                    == PErrorView::MissingCommand(command@, self@.path),
            },
    {
        let ghost cmds = self@.commands;
        let wanted = String::from_str(command);
        let mut j: usize = 0;
        proof {
            assert(cmds.skip(0) =~= cmds);
        }
        while j < self.commands.len()
            invariant
                0 <= j <= self.commands.len(),
                cmds == self@.commands,
                cmds.len() == self.commands.len(),
                wanted@ == command@,
                registry_lookup(cmds, command@) == registry_lookup(cmds.skip(j as int), command@),
            decreases self.commands.len() - j,
        {
            proof {
                assert(cmds.skip(j as int).len() != 0);
                assert(cmds.skip(j as int)[0] == cmds[j as int]);
                assert(cmds.skip(j as int).drop_first() =~= cmds.skip(j as int + 1));
                assert(cmds[j as int] == self.commands@[j as int].deep_view());
                assert(cmds[j as int].0 == self.commands@[j as int].0@);
                assert(cmds[j as int].1 == self.commands@[j as int].1@);
            }
            if self.commands[j].0.eq(&wanted) {
                return Ok(parse_command(self.commands[j].1.as_str()));
            }
            j = j + 1;
        }
        proof {
            assert(cmds.skip(self.commands.len() as int).len() == 0);
        }
        Err(PError::MissingCommand(String::from_str(command), self.path.clone()))
    }

    /// The indices of the modules whose patterns match the path's string
    /// form, in declaration order: one dispatch pass runs the run-lists of
    /// exactly these modules, in this order.
    pub fn matching_modules(&self, path: &str) -> (r: Vec<usize>)
        ensures
            r@.map_values(|u: usize| u as int) == matching_indices(self@.modules, path@),
            forall|k: int| 0 <= k < r@.len() ==> #[trigger] r@[k] < self@.modules.len(),
    {
        let mut out: Vec<usize> = Vec::new();
        let mut i: usize = 0;
        proof {
            assert(out@.map_values(|u: usize| u as int) =~= matching_upto(self@.modules, path@, 0));
        }
        while i < self.modules.len()
            invariant
                0 <= i <= self.modules.len(),
                self@.modules.len() == self.modules.len(),
                out@.map_values(|u: usize| u as int) =~= matching_upto(
                    self@.modules,
                    path@,
                    i as int,
                ),
                forall|k: int| 0 <= k < out@.len() ==> #[trigger] out@[k] < i,
            decreases self.modules.len() - i,
        {
            if self.modules[i].match_change(path) {
                out.push(i);
            }
            i = i + 1;
            proof {
                assert(out@.map_values(|u: usize| u as int) =~= matching_upto(
                    self@.modules,
                    path@,
                    i as int,
                ));
            }
        }
        out
    }
}

} // verus!

//! The descriptor parser and the command tokenizer.
//!
//! The parser consumes a generic table of named sections — the outcome of the
//! external TOML layer, reduced to plain values: each top-level section is
//! either a table of keys with scalar-string or list-of-strings values, or
//! something else (which is a hard error).  Parsing is fail-fast: the first
//! error encountered aborts the whole parse and no partial descriptor is
//! returned.

use vstd::prelude::*;

use crate::error::{PError, PErrorView};
use crate::pattern::{first_bad_glob, rooted};
use crate::prown::{Module, ModuleView, Prown, PrownView};

verus! {

/// The mathematical shape of a [`RawValue`].
pub enum RawValueView {
    VStr(Seq<char>),
    VList(Seq<Seq<char>>),
    VOther,
}

/// A value found under a key of a section: a scalar string, a list of
/// strings, or any other shape (which no key of the descriptor accepts).
#[derive(Debug)]
pub enum RawValue {
    Str(String),
    List(Vec<String>),
    Other,
}

impl View for RawValue {
    type V = RawValueView;

    open spec fn view(&self) -> RawValueView {
        match self {
            RawValue::Str(s) => RawValueView::VStr(s@),
            RawValue::List(l) => RawValueView::VList(l.deep_view()),
            RawValue::Other => RawValueView::VOther,
        }
    }
}

impl DeepView for RawValue {
    type V = RawValueView;

    open spec fn deep_view(&self) -> RawValueView {
        self.view()
    }
}

/// The mathematical shape of a [`RawSection`].
pub enum RawSectionView {
    STable(Seq<(Seq<char>, RawValueView)>),
    SNotTable,
}

/// A top-level section of the document: a table of named values in document
/// order, or a value of any other shape.
#[derive(Debug)]
pub enum RawSection {
    Table(Vec<(String, RawValue)>),
    NotTable,
}

impl View for RawSection {
    type V = RawSectionView;

    open spec fn view(&self) -> RawSectionView {
        match self {
            RawSection::Table(entries) => RawSectionView::STable(entries.deep_view()),
            RawSection::NotTable => RawSectionView::SNotTable,
        }
    }
}

impl DeepView for RawSection {
    type V = RawSectionView;

    open spec fn deep_view(&self) -> RawSectionView {
        self.view()
    }
}

/// The ordered sequence of strings a `change`/`run` value normalizes to: a
/// single string is promoted to a one-element sequence, a list is kept as it
/// is, and any other shape has no normal form.
pub open spec fn items_of(v: RawValueView) -> Option<Seq<Seq<char>>> {
    match v {
        RawValueView::VStr(s) => Some(seq![s]),
        RawValueView::VList(l) => Some(l),
        RawValueView::VOther => None,
    }
}

/// Normalize a `change`/`run` value: a single string becomes a one-element
/// list, a list of strings stays as it is, and any other shape is refused.
pub fn parse_content(value: &RawValue) -> (r: Option<Vec<String>>)
    ensures
        match r {
            Some(v) => items_of(value@) == Some(v.deep_view()),
            None => items_of(value@) is None,
        },
{
    match value {
        RawValue::Str(s) => {
            let mut v: Vec<String> = Vec::new();
            v.push(s.clone());
            proof {
                assert(v.deep_view() =~= seq![s@]);
            }
            Some(v)
        },
        RawValue::List(l) => {
            let mut v: Vec<String> = Vec::new();
            let mut i: usize = 0;
            while i < l.len()
                invariant
                    0 <= i <= l.len(),
                    v.deep_view() =~= l.deep_view().take(i as int),
                decreases l.len() - i,
            {
                proof {
                    assert(v.deep_view().len() == v@.len());
                    assert(v@.len() == i);
                }
                v.push(l[i].clone());
                proof {
                    assert(v@.len() == i + 1);
                    assert(v@[i as int] == l@[i as int]);
                    assert(v.deep_view() =~= l.deep_view().take(i as int + 1));
                }
                i = i + 1;
            }
            proof {
                assert(l.deep_view().take(l.len() as int) =~= l.deep_view());
            }
            Some(v)
        },
        RawValue::Other => None,
    }
}

/// Whitespace for the purpose of command tokenization: the Unicode
/// white-space code points, the set `str::split_whitespace` splits on.
pub open spec fn is_space(c: char) -> bool {
    c == '\t' || c == '\n' || c == '\u{b}' || c == '\u{c}' || c == '\r' || c == ' ' || c
        == '\u{85}' || c == '\u{a0}' || c == '\u{1680}' || c == '\u{2000}' || c == '\u{2001}'
        || c == '\u{2002}' || c == '\u{2003}' || c == '\u{2004}' || c == '\u{2005}' || c
        == '\u{2006}' || c == '\u{2007}' || c == '\u{2008}' || c == '\u{2009}' || c
        == '\u{200a}' || c == '\u{2028}' || c == '\u{2029}' || c == '\u{202f}' || c
        == '\u{205f}' || c == '\u{3000}'
}

/// The position of the first whitespace character at or after `i`, or the
/// end of the text.
pub open spec fn token_end(s: Seq<char>, i: int) -> int
    decreases s.len() - i,
{
    if i < 0 || i >= s.len() {
        s.len() as int
    } else if is_space(s[i]) {
        i
    } else {
        token_end(s, i + 1)
    }
}

pub proof fn lemma_token_end(s: Seq<char>, i: int)
    requires
        0 <= i <= s.len(),
    ensures
        i <= token_end(s, i) <= s.len(),
    decreases s.len() - i,
{
    if i < s.len() && !is_space(s[i]) {
        lemma_token_end(s, i + 1);
    }
}

/// The whitespace-delimited tokens of `s` from position `i` on, in order.
pub open spec fn tokens_from(s: Seq<char>, i: int) -> Seq<Seq<char>>
    decreases s.len() - i,
    when 0 <= i
    via tokens_from_decreases
{
    if i >= s.len() {
        Seq::empty()
    } else if is_space(s[i]) {
        tokens_from(s, i + 1)
    } else {
        seq![s.subrange(i, token_end(s, i))] + tokens_from(s, token_end(s, i))
    }
}

#[via_fn]
proof fn tokens_from_decreases(s: Seq<char>, i: int) {
    if 0 <= i < s.len() && !is_space(s[i]) {
        lemma_token_end(s, i + 1);
    }
}

/// The whitespace-delimited tokens of a raw command string, in order.
pub open spec fn tokens_of(s: Seq<char>) -> Seq<Seq<char>> {
    tokens_from(s, 0)
}

/// The program a raw command string names: its first token, or the empty
/// string when the command has no tokens at all.
pub open spec fn command_program(s: Seq<char>) -> Seq<char> {
    if tokens_of(s).len() == 0 {
        Seq::empty()
    } else {
        tokens_of(s)[0]
    }
}

/// The arguments of a raw command string: every token after the first.
pub open spec fn command_args(s: Seq<char>) -> Seq<Seq<char>> {
    if tokens_of(s).len() == 0 {
        Seq::empty()
    } else {
        tokens_of(s).drop_first()
    }
}

fn is_space_char(c: char) -> (r: bool)
    ensures
        r == is_space(c),
{
    c == '\t' || c == '\n' || c == '\u{b}' || c == '\u{c}' || c == '\r' || c == ' ' || c
        == '\u{85}' || c == '\u{a0}' || c == '\u{1680}' || c == '\u{2000}' || c == '\u{2001}'
        || c == '\u{2002}' || c == '\u{2003}' || c == '\u{2004}' || c == '\u{2005}' || c
        == '\u{2006}' || c == '\u{2007}' || c == '\u{2008}' || c == '\u{2009}' || c
        == '\u{200a}' || c == '\u{2028}' || c == '\u{2029}' || c == '\u{202f}' || c
        == '\u{205f}' || c == '\u{3000}'
}

/// Split a raw command string into its whitespace-delimited tokens.
pub fn split_tokens(s: &str) -> (r: Vec<String>)
    ensures
        r.deep_view() == tokens_of(s@),
{
    let n = s.unicode_len();
    let mut toks: Vec<String> = Vec::new();
    let mut i: usize = 0;
    while i < n
        invariant
            n == s@.len(),
            0 <= i <= n,
            toks.deep_view() + tokens_from(s@, i as int) == tokens_of(s@),
        decreases n - i,
    {
        let c = s.get_char(i);
        if is_space_char(c) {
            i = i + 1;
        } else {
            let start = i;
            i = i + 1;
            while i < n && !is_space_char(s.get_char(i))
                invariant
                    n == s@.len(),
                    start < i <= n,
                    token_end(s@, start as int) == token_end(s@, i as int),
                decreases n - i,
            {
                i = i + 1;
            }
            proof {
                assert(token_end(s@, start as int) == i as int);
            }
            let tok = s.substring_char(start, i);
            let ghost old_toks = toks.deep_view();
            toks.push(String::from_str(tok));
            proof {
                assert(toks.deep_view() =~= old_toks + seq![s@.subrange(
                    start as int,
                    token_end(s@, start as int),
                )]);
                assert(toks.deep_view() + tokens_from(s@, i as int) =~= tokens_of(s@));
            }
        }
    }
    proof {
        assert(toks.deep_view() + tokens_from(s@, n as int) =~= toks.deep_view());
    }
    toks
}

/// A module that has a name but no patterns or commands yet.
pub open spec fn init_module(name: Seq<char>) -> ModuleView {
    ModuleView { name, change: Seq::empty(), run: Seq::empty() }
}

/// The keys that set a module's change patterns.
pub open spec fn is_change_key(k: Seq<char>) -> bool {
    k == ("change")@ || k == ("changes")@
}

/// The key that sets a module's run-list.
pub open spec fn is_run_key(k: Seq<char>) -> bool {
    k == ("run")@
}

/// The reserved section names that hold the command registry.
pub open spec fn is_commands_name(n: Seq<char>) -> bool {
    n == ("commands")@ || n == ("command")@
}

/// The meaning of a module section: its entries are folded over the module
/// in document order, each recognized key replacing the pattern list or the
/// run-list, and the first offence — an unrecognized key, a wrongly shaped
/// value, or a pattern whose rooted form is not a valid glob — aborts the
/// fold with its error.
pub open spec fn parse_module_entries(
    m: ModuleView,
    entries: Seq<(Seq<char>, RawValueView)>,
) -> Result<ModuleView, PErrorView>
    decreases entries.len(),
{
    if entries.len() == 0 {
        Ok(m)
    } else {
        let k = entries[0].0;
        let v = entries[0].1;
        if is_change_key(k) {
            match items_of(v) {
                None => Err(PErrorView::BadValue(m.name, k)),
                Some(items) => match first_bad_glob(items) {
                    Some(t) => Err(PErrorView::PatternError(t)),
                    None => parse_module_entries(
                        ModuleView { change: items.map_values(|s: Seq<char>| rooted(s)), ..m },
                        entries.drop_first(),
                    ),
                },
            }
        } else if is_run_key(k) {
            match items_of(v) {
                None => Err(PErrorView::BadValue(m.name, k)),
                Some(items) => parse_module_entries(
                    ModuleView { run: items, ..m },
                    entries.drop_first(),
                ),
            }
        } else {
            Err(PErrorView::CommandNotImplemented(k, m.name))
        }
    }
}

/// The meaning of a registry section: each entry must carry a scalar string
/// and becomes a registry entry in document order; the first non-string
/// value aborts with a type error naming the section and the key.
pub open spec fn parse_commands_entries(
    section: Seq<char>,
    entries: Seq<(Seq<char>, RawValueView)>,
) -> Result<Seq<(Seq<char>, Seq<char>)>, PErrorView>
    decreases entries.len(),
{
    if entries.len() == 0 {
        Ok(Seq::empty())
    } else {
        match entries[0].1 {
            RawValueView::VStr(s) => match parse_commands_entries(
                section,
                entries.drop_first(),
            ) {
                Ok(rest) => Ok(seq![(entries[0].0, s)] + rest),
                Err(e) => Err(e),
            },
            _ => Err(PErrorView::BadValue(section, entries[0].0)),
        }
    }
}

/// The meaning of a whole document, folded section by section: a non-table
/// section fails at once; the first registry section (by its reserved name)
/// is honored and any later one is silently ignored; every other section is
/// a module definition, appended in document order.  The first error aborts
/// the whole parse.
pub open spec fn parse_doc_from(
    path: Seq<char>,
    sections: Seq<(Seq<char>, RawSectionView)>,
    modules: Seq<ModuleView>,
    commands: Seq<(Seq<char>, Seq<char>)>,
    seen: bool,
) -> Result<PrownView, PErrorView>
    decreases sections.len(),
{
    if sections.len() == 0 {
        Ok(PrownView { path, modules, commands })
    } else {
        let name = sections[0].0;
        match sections[0].1 {
            RawSectionView::SNotTable => Err(PErrorView::NotATable(name)),
            RawSectionView::STable(entries) => if is_commands_name(name) {
                if !seen {
                    match parse_commands_entries(name, entries) {
                        Err(e) => Err(e),
                        Ok(cmds) => parse_doc_from(
                            path,
                            sections.drop_first(),
                            modules,
                            cmds,
                            true,
                        ),
                    }
                } else {
                    parse_doc_from(path, sections.drop_first(), modules, commands, true)
                }
            } else {
                match parse_module_entries(init_module(name), entries) {
                    Err(e) => Err(e),
                    Ok(m) => parse_doc_from(
                        path,
                        sections.drop_first(),
                        modules.push(m),
                        commands,
                        seen,
                    ),
                }
            },
        }
    }
}

/// The meaning of a whole document, starting from an empty descriptor.
pub open spec fn parse_doc(path: Seq<char>, sections: Seq<(Seq<char>, RawSectionView)>) -> Result<
    PrownView,
    PErrorView,
> {
    parse_doc_from(path, sections, Seq::empty(), Seq::empty(), false)
}

/// Tokenize a raw command string into the program and its argument list.
/// The first whitespace-delimited token is the program, the remainder are
/// the arguments; an empty or all-whitespace command yields an empty program
/// name (which the executor must then refuse rather than silently skip).
pub fn parse_command(command: &str) -> (r: (String, Vec<String>))
    ensures
        r.0@ == command_program(command@),
        r.1.deep_view() == command_args(command@),
{
    let mut toks = split_tokens(command);
    if toks.len() == 0 {
        (String::new(), Vec::new())
    } else {
        let prog = toks.remove(0);
        proof {
            assert(toks.deep_view() =~= tokens_of(command@).drop_first());
        }
        (prog, toks)
    }
}

/// Parse one module section: fold its entries over a fresh module named
/// after the section.
pub fn parse_module(name: &str, table: &Vec<(String, RawValue)>) -> (r: Result<Module, PError>)
    ensures
        match r {
            Ok(m) => parse_module_entries(init_module(name@), table.deep_view()) == Ok::<ModuleView, PErrorView>(m@),
            Err(e) => parse_module_entries(init_module(name@), table.deep_view()) == Err::<ModuleView, PErrorView>(e@),
        },
{
    let ghost ev = table.deep_view();
    let mut module = Module::new(name);
    let change_lit = String::from_str("change");
    let changes_lit = String::from_str("changes");
    let run_lit = String::from_str("run");
    let mut i: usize = 0;
    proof {
        assert(ev.skip(0) =~= ev);
    }
    while i < table.len()
        invariant
            0 <= i <= table.len(),
            ev == table.deep_view(),
            ev.len() == table.len(),
            change_lit@ == ("change")@,
            changes_lit@ == ("changes")@,
            run_lit@ == ("run")@,
            module@.name == name@,
            parse_module_entries(init_module(name@), ev) == parse_module_entries(
                module@,
                ev.skip(i as int),
            ),
        decreases table.len() - i,
    {
        proof {
            assert(ev.skip(i as int).len() != 0);
            assert(ev.skip(i as int)[0] == ev[i as int]);
            assert(ev.skip(i as int).drop_first() =~= ev.skip(i as int + 1));
            assert(ev[i as int] == table@[i as int].deep_view());
            assert(ev[i as int].0 == table@[i as int].0@);
            assert(ev[i as int].1 == table@[i as int].1@);
        }
        let k = &table[i].0;
        let v = &table[i].1;
        if k.eq(&change_lit) || k.eq(&changes_lit) {
            match parse_content(v) {
                Some(content) => {
                    match module.change(content) {
                        Ok(_) => {},
                        Err(e) => {
                            return Err(e);
                        },
                    }
                },
                None => {
                    return Err(PError::BadValue(String::from_str(name), k.clone()));
                },
            }
        } else if k.eq(&run_lit) {
            match parse_content(v) {
                Some(content) => {
                    module.run(content);
                },
                None => {
                    return Err(PError::BadValue(String::from_str(name), k.clone()));
                },
            }
        } else {
            return Err(PError::CommandNotImplemented(k.clone(), String::from_str(name)));
        }
        i = i + 1;
    }
    Ok(module)
}

/// Parse a registry section: every entry must carry a scalar string.
pub fn parse_commands(section: &str, table: &Vec<(String, RawValue)>) -> (r: Result<
    Vec<(String, String)>,
    PError,
>)
    ensures
        match r {
            Ok(cmds) => parse_commands_entries(section@, table.deep_view()) == Ok::<Seq<(Seq<char>, Seq<char>)>, PErrorView>(cmds.deep_view()),
            Err(e) => parse_commands_entries(section@, table.deep_view()) == Err::<Seq<(Seq<char>, Seq<char>)>, PErrorView>(e@),
        },
{
    let ghost ev = table.deep_view();
    let mut cmds: Vec<(String, String)> = Vec::new();
    let mut i: usize = 0;
    proof {
        assert(ev.skip(0) =~= ev);
        assert(cmds.deep_view() =~= Seq::<(Seq<char>, Seq<char>)>::empty());
    }
    while i < table.len()
        invariant
            0 <= i <= table.len(),
            ev == table.deep_view(),
            ev.len() == table.len(),
            (match parse_commands_entries(section@, ev.skip(i as int)) {
                Ok(rest) => parse_commands_entries(section@, ev) == Ok::<Seq<(Seq<char>, Seq<char>)>, PErrorView>(cmds.deep_view() + rest),
                Err(e) => parse_commands_entries(section@, ev) == Err::<Seq<(Seq<char>, Seq<char>)>, PErrorView>(e),
            }),
        decreases table.len() - i,
    {
        proof {
            assert(ev.skip(i as int).len() != 0);
            assert(ev.skip(i as int)[0] == ev[i as int]);
            assert(ev.skip(i as int).drop_first() =~= ev.skip(i as int + 1));
            assert(ev[i as int] == table@[i as int].deep_view());
            assert(ev[i as int].0 == table@[i as int].0@);
            assert(ev[i as int].1 == table@[i as int].1@);
        }
        match &table[i].1 {
            RawValue::Str(s) => {
                let ghost old_cmds = cmds.deep_view();
                cmds.push((table[i].0.clone(), s.clone()));
                proof {
                    assert(cmds.deep_view() =~= old_cmds + seq![(ev[i as int].0, s@)]);
                    let rec = parse_commands_entries(section@, ev.skip(i as int + 1));
                    if rec is Ok {
                        assert(old_cmds + (seq![(ev[i as int].0, s@)] + rec->Ok_0)
                            =~= cmds.deep_view() + rec->Ok_0);
                    }
                }
            },
            RawValue::List(_) => {
                return Err(PError::BadValue(String::from_str(section), table[i].0.clone()));
            },
            RawValue::Other => {
                return Err(PError::BadValue(String::from_str(section), table[i].0.clone()));
            },
        }
        i = i + 1;
    }
    proof {
        assert(ev.skip(table.len() as int).len() == 0);
        assert(cmds.deep_view() + Seq::<(Seq<char>, Seq<char>)>::empty() =~= cmds.deep_view());
    }
    Ok(cmds)
}

/// Parse a whole document into a descriptor.
///
/// Each top-level section must be a table.  A section named `commands` or
/// `command` holds the registry; only the first such section encountered is
/// honored, and a later one is silently ignored, entries and all (a
/// documented quirk of the format).  Every other section defines a module,
/// kept in document order.  Parsing is fail-fast: the first error aborts the
/// whole parse and no partial descriptor is returned.
pub fn parse_prown(doc: &Vec<(String, RawSection)>, path: String) -> (r: Result<Prown, PError>)
    ensures
        match r {
            Ok(p) => parse_doc(path@, doc.deep_view()) == Ok::<PrownView, PErrorView>(p@),
            Err(e) => parse_doc(path@, doc.deep_view()) == Err::<PrownView, PErrorView>(e@),
        },
{
    let ghost dv = doc.deep_view();
    let mut modules: Vec<Module> = Vec::new();
    let mut commands: Vec<(String, String)> = Vec::new();
    let mut seen = false;
    let commands_lit = String::from_str("commands");
    let command_lit = String::from_str("command");
    let mut i: usize = 0;
    proof {
        assert(dv.skip(0) =~= dv);
        assert(modules@.map_values(|m: Module| m@) =~= Seq::<ModuleView>::empty());
        assert(commands.deep_view() =~= Seq::<(Seq<char>, Seq<char>)>::empty());
    }
    while i < doc.len()
        invariant
            0 <= i <= doc.len(),
            dv == doc.deep_view(),
            dv.len() == doc.len(),
            commands_lit@ == ("commands")@,
            command_lit@ == ("command")@,
            parse_doc(path@, dv) == parse_doc_from(
                path@,
                dv.skip(i as int),
                modules@.map_values(|m: Module| m@),
                commands.deep_view(),
                seen,
            ),
        decreases doc.len() - i,
    {
        proof {
            assert(dv.skip(i as int).len() != 0);
            assert(dv.skip(i as int)[0] == dv[i as int]);
            assert(dv.skip(i as int).drop_first() =~= dv.skip(i as int + 1));
            assert(dv[i as int] == doc@[i as int].deep_view());
            assert(dv[i as int].0 == doc@[i as int].0@);
            assert(dv[i as int].1 == doc@[i as int].1@);
        }
        let name = &doc[i].0;
        match &doc[i].1 {
            RawSection::NotTable => {
                return Err(PError::NotATable(name.clone()));
            },
            RawSection::Table(entries) => {
                if name.eq(&commands_lit) || name.eq(&command_lit) {
                    if !seen {
                        match parse_commands(name.as_str(), entries) {
                            Ok(c) => {
                                commands = c;
                            },
                            Err(e) => {
                                return Err(e);
                            },
                        }
                    }
                    seen = true;
                } else {
                    match parse_module(name.as_str(), entries) {
                        Ok(m) => {
                            let ghost old_modules = modules@.map_values(|m: Module| m@);
                            let ghost mv = m@;
                            modules.push(m);
                            proof {
                                assert(modules@.map_values(|m: Module| m@) =~= old_modules.push(
                                    mv,
                                ));
                            }
                        },
                        Err(e) => {
                            return Err(e);
                        },
                    }
                }
            },
        }
        i = i + 1;
    }
    proof {
        assert(dv.skip(doc.len() as int).len() == 0);
    }
    let r = Prown::new(path, modules, commands);
    Ok(r)
}

/// A single string under `change`/`run` normalizes exactly as its
/// one-element list does.
pub proof fn lemma_single_string_promotion(s: Seq<char>)
    ensures
        items_of(RawValueView::VStr(s)) == items_of(RawValueView::VList(seq![s])),
{
}

/// Normalization is all a module section sees of its values: two entry
/// lists with the same keys whose values normalize to the same item
/// sequences parse to the same outcome.  In particular a single string and
/// its one-element list are interchangeable anywhere under `change`/`run`.
pub proof fn lemma_value_normalization(
    m: ModuleView,
    e1: Seq<(Seq<char>, RawValueView)>,
    e2: Seq<(Seq<char>, RawValueView)>,
)
    requires
        e1.len() == e2.len(),
        forall|i: int| 0 <= i < e1.len() ==> (#[trigger] e1[i]).0 == (#[trigger] e2[i]).0,
        forall|i: int| 0 <= i < e1.len() ==> items_of(e1[i].1) == items_of(e2[i].1),
    ensures
        parse_module_entries(m, e1) == parse_module_entries(m, e2),
    decreases e1.len(),
{
    if e1.len() != 0 {
        let k = e1[0].0;
        let t1 = e1.drop_first();
        let t2 = e2.drop_first();
        assert(forall|i: int| 0 <= i < t1.len() ==> (#[trigger] t1[i]).0 == (#[trigger] t2[i]).0);
        assert(forall|i: int|
            0 <= i < t1.len() ==> items_of((#[trigger] t1[i]).1) == items_of((#[trigger] t2[i]).1));
        if is_change_key(k) {
            match items_of(e1[0].1) {
                Some(items) => {
                    if first_bad_glob(items) is None {
                        lemma_value_normalization(
                            ModuleView {
                                change: items.map_values(|s: Seq<char>| rooted(s)),
                                ..m
                            },
                            t1,
                            t2,
                        );
                    }
                },
                None => {},
            }
        } else if is_run_key(k) {
            match items_of(e1[0].1) {
                Some(items) => {
                    lemma_value_normalization(ModuleView { run: items, ..m }, t1, t2);
                },
                None => {},
            }
        }
    }
}

proof fn lemma_doc_norm_from(
    path: Seq<char>,
    s1: Seq<(Seq<char>, RawSectionView)>,
    s2: Seq<(Seq<char>, RawSectionView)>,
    ms: Seq<ModuleView>,
    cs: Seq<(Seq<char>, Seq<char>)>,
    seen: bool,
    j: int,
)
    requires
        s1.len() == s2.len(),
        0 <= j < s1.len(),
        forall|i: int| 0 <= i < s1.len() && i != j ==> s1[i] == s2[i],
        s1[j].0 == s2[j].0,
        !is_commands_name(s1[j].0),
        (s1[j].1 matches RawSectionView::STable(e1) && s2[j].1 matches RawSectionView::STable(e2)
            && e1.len() == e2.len() && (forall|k: int|
            0 <= k < e1.len() ==> (#[trigger] e1[k]).0 == (#[trigger] e2[k]).0) && (forall|k: int|
            0 <= k < e1.len() ==> items_of((#[trigger] e1[k]).1) == items_of(
                (#[trigger] e2[k]).1,
            ))),
    ensures
        parse_doc_from(path, s1, ms, cs, seen) == parse_doc_from(path, s2, ms, cs, seen),
    decreases j,
{
    if j == 0 {
        match (s1[0].1, s2[0].1) {
            (RawSectionView::STable(e1), RawSectionView::STable(e2)) => {
                lemma_value_normalization(init_module(s1[0].0), e1, e2);
                assert(s1.drop_first() =~= s2.drop_first());
            },
            _ => {
                assert(false);
            },
        }
    } else {
        assert(s1[0] == s2[0]);
        let r1 = s1.drop_first();
        let r2 = s2.drop_first();
        assert(r1[j - 1] == s1[j]);
        assert(r2[j - 1] == s2[j]);
        assert(forall|i: int| 0 <= i < r1.len() && i != j - 1 ==> r1[i] == r2[i]);
        match s1[0].1 {
            RawSectionView::SNotTable => {},
            RawSectionView::STable(entries) => {
                let name = s1[0].0;
                if is_commands_name(name) {
                    if !seen {
                        match parse_commands_entries(name, entries) {
                            Err(e) => {},
                            Ok(cmds) => {
                                lemma_doc_norm_from(path, r1, r2, ms, cmds, true, j - 1);
                            },
                        }
                    } else {
                        lemma_doc_norm_from(path, r1, r2, ms, cs, true, j - 1);
                    }
                } else {
                    match parse_module_entries(init_module(name), entries) {
                        Err(e) => {},
                        Ok(mv) => {
                            lemma_doc_norm_from(path, r1, r2, ms.push(mv), cs, seen, j - 1);
                        },
                    }
                }
            },
        }
    }
}

/// Promoting a single string under `change`/`run` to its one-element list —
/// or any reshaping of one module section's values that leaves their normal
/// forms and keys unchanged — is invisible at the document level: the two
/// documents parse to the same descriptor, or to the same error.
pub proof fn lemma_doc_value_normalization(
    path: Seq<char>,
    s1: Seq<(Seq<char>, RawSectionView)>,
    s2: Seq<(Seq<char>, RawSectionView)>,
    j: int,
)
    requires
        s1.len() == s2.len(),
        0 <= j < s1.len(),
        forall|i: int| 0 <= i < s1.len() && i != j ==> s1[i] == s2[i],
        s1[j].0 == s2[j].0,
        !is_commands_name(s1[j].0),
        (s1[j].1 matches RawSectionView::STable(e1) && s2[j].1 matches RawSectionView::STable(e2)
            && e1.len() == e2.len() && (forall|k: int|
            0 <= k < e1.len() ==> (#[trigger] e1[k]).0 == (#[trigger] e2[k]).0) && (forall|k: int|
            0 <= k < e1.len() ==> items_of((#[trigger] e1[k]).1) == items_of(
                (#[trigger] e2[k]).1,
            ))),
    ensures
        parse_doc(path, s1) == parse_doc(path, s2),
{
    lemma_doc_norm_from(path, s1, s2, Seq::empty(), Seq::empty(), false, j);
}

proof fn lemma_not_table_from(
    path: Seq<char>,
    sections: Seq<(Seq<char>, RawSectionView)>,
    ms: Seq<ModuleView>,
    cs: Seq<(Seq<char>, Seq<char>)>,
    seen: bool,
    i: int,
)
    requires
        0 <= i < sections.len(),
        sections[i].1 is SNotTable,
        parse_doc_from(path, sections.take(i), ms, cs, seen) is Ok,
    ensures
        parse_doc_from(path, sections, ms, cs, seen) == Err::<PrownView, PErrorView>(
            PErrorView::NotATable(sections[i].0),
        ),
    decreases i,
{
    if i > 0 {
        let t = sections.take(i);
        let rest = sections.drop_first();
        assert(t.len() == i);
        assert(t[0] == sections[0]);
        assert(t.drop_first() =~= rest.take(i - 1));
        assert(rest[i - 1] == sections[i]);
        match sections[0].1 {
            RawSectionView::SNotTable => {
                assert(false);
            },
            RawSectionView::STable(entries) => {
                let name = sections[0].0;
                if is_commands_name(name) {
                    if !seen {
                        match parse_commands_entries(name, entries) {
                            Err(e) => {
                                assert(false);
                            },
                            Ok(cmds) => {
                                lemma_not_table_from(path, rest, ms, cmds, true, i - 1);
                            },
                        }
                    } else {
                        lemma_not_table_from(path, rest, ms, cs, true, i - 1);
                    }
                } else {
                    match parse_module_entries(init_module(name), entries) {
                        Err(e) => {
                            assert(false);
                        },
                        Ok(mv) => {
                            lemma_not_table_from(path, rest, ms.push(mv), cs, seen, i - 1);
                        },
                    }
                }
            },
        }
    }
}

/// A section whose value is not a table fails the whole parse with an error
/// naming exactly that section, whenever the sections before it parse.
pub proof fn lemma_not_a_table_names_section(
    path: Seq<char>,
    sections: Seq<(Seq<char>, RawSectionView)>,
    i: int,
)
    requires
        0 <= i < sections.len(),
        sections[i].1 is SNotTable,
        parse_doc(path, sections.take(i)) is Ok,
    ensures
        parse_doc(path, sections) == Err::<PrownView, PErrorView>(
            PErrorView::NotATable(sections[i].0),
        ),
{
    lemma_not_table_from(path, sections, Seq::empty(), Seq::empty(), false, i);
}

proof fn lemma_non_table_errs_from(
    path: Seq<char>,
    sections: Seq<(Seq<char>, RawSectionView)>,
    ms: Seq<ModuleView>,
    cs: Seq<(Seq<char>, Seq<char>)>,
    seen: bool,
    i: int,
)
    requires
        0 <= i < sections.len(),
        sections[i].1 is SNotTable,
    ensures
        parse_doc_from(path, sections, ms, cs, seen) is Err,
    decreases i,
{
    if i > 0 {
        let rest = sections.drop_first();
        assert(rest[i - 1] == sections[i]);
        match sections[0].1 {
            RawSectionView::SNotTable => {},
            RawSectionView::STable(entries) => {
                let name = sections[0].0;
                if is_commands_name(name) {
                    if !seen {
                        match parse_commands_entries(name, entries) {
                            Err(e) => {},
                            Ok(cmds) => {
                                lemma_non_table_errs_from(path, rest, ms, cmds, true, i - 1);
                            },
                        }
                    } else {
                        lemma_non_table_errs_from(path, rest, ms, cs, true, i - 1);
                    }
                } else {
                    match parse_module_entries(init_module(name), entries) {
                        Err(e) => {},
                        Ok(mv) => {
                            lemma_non_table_errs_from(path, rest, ms.push(mv), cs, seen, i - 1);
                        },
                    }
                }
            },
        }
    }
}

/// A document containing a section whose value is not a table never parses:
/// no partial descriptor comes out of it.
pub proof fn lemma_non_table_never_parses(
    path: Seq<char>,
    sections: Seq<(Seq<char>, RawSectionView)>,
    i: int,
)
    requires
        0 <= i < sections.len(),
        sections[i].1 is SNotTable,
    ensures
        parse_doc(path, sections) is Err,
{
    lemma_non_table_errs_from(path, sections, Seq::empty(), Seq::empty(), false, i);
}

proof fn lemma_commands_ignored_when_seen(
    path: Seq<char>,
    sections: Seq<(Seq<char>, RawSectionView)>,
    ms: Seq<ModuleView>,
    cs: Seq<(Seq<char>, Seq<char>)>,
    j: int,
    entries2: Seq<(Seq<char>, RawValueView)>,
)
    requires
        0 <= j < sections.len(),
        is_commands_name(sections[j].0),
        sections[j].1 is STable,
    ensures
        parse_doc_from(path, sections, ms, cs, true) == parse_doc_from(
            path,
            sections.update(j, (sections[j].0, RawSectionView::STable(entries2))),
            ms,
            cs,
            true,
        ),
    decreases sections.len(),
{
    let u = sections.update(j, (sections[j].0, RawSectionView::STable(entries2)));
    assert(u.len() == sections.len());
    if j == 0 {
        assert(u[0].0 == sections[0].0);
        assert(u[0].1 is STable);
        assert(u.drop_first() =~= sections.drop_first());
    } else {
        assert(u[0] == sections[0]);
        let rest = sections.drop_first();
        assert(u.drop_first() =~= rest.update(j - 1, (rest[j - 1].0, RawSectionView::STable(
            entries2,
        ))));
        assert(rest[j - 1] == sections[j]);
        match sections[0].1 {
            RawSectionView::SNotTable => {},
            RawSectionView::STable(entries) => {
                let name = sections[0].0;
                if is_commands_name(name) {
                    lemma_commands_ignored_when_seen(path, rest, ms, cs, j - 1, entries2);
                } else {
                    match parse_module_entries(init_module(name), entries) {
                        Err(e) => {},
                        Ok(mv) => {
                            lemma_commands_ignored_when_seen(
                                path,
                                rest,
                                ms.push(mv),
                                cs,
                                j - 1,
                                entries2,
                            );
                        },
                    }
                }
            },
        }
    }
}

proof fn lemma_second_commands_from(
    path: Seq<char>,
    sections: Seq<(Seq<char>, RawSectionView)>,
    ms: Seq<ModuleView>,
    cs: Seq<(Seq<char>, Seq<char>)>,
    j: int,
    entries2: Seq<(Seq<char>, RawValueView)>,
)
    requires
        0 <= j < sections.len(),
        is_commands_name(sections[j].0),
        sections[j].1 is STable,
        exists|i: int|
            0 <= i < j && is_commands_name(sections[i].0) && (#[trigger] sections[i].1) is STable,
    ensures
        parse_doc_from(path, sections, ms, cs, false) == parse_doc_from(
            path,
            sections.update(j, (sections[j].0, RawSectionView::STable(entries2))),
            ms,
            cs,
            false,
        ),
    decreases j,
{
    let i = choose|i: int|
        0 <= i < j && is_commands_name(sections[i].0) && (#[trigger] sections[i].1) is STable;
    let u = sections.update(j, (sections[j].0, RawSectionView::STable(entries2)));
    assert(u.len() == sections.len());
    assert(u[0] == sections[0]);
    let rest = sections.drop_first();
    assert(u.drop_first() =~= rest.update(j - 1, (rest[j - 1].0, RawSectionView::STable(
        entries2,
    ))));
    assert(rest[j - 1] == sections[j]);
    match sections[0].1 {
        RawSectionView::SNotTable => {},
        RawSectionView::STable(entries) => {
            let name = sections[0].0;
            if is_commands_name(name) {
                match parse_commands_entries(name, entries) {
                    Err(e) => {},
                    Ok(cmds) => {
                        lemma_commands_ignored_when_seen(path, rest, ms, cmds, j - 1, entries2);
                    },
                }
            } else {
                assert(i >= 1);
                assert(rest[i - 1] == sections[i]);
                match parse_module_entries(init_module(name), entries) {
                    Err(e) => {},
                    Ok(mv) => {
                        assert(0 <= i - 1 < j - 1 && is_commands_name(rest[i - 1].0) && rest[i
                            - 1].1 is STable);
                        lemma_second_commands_from(path, rest, ms.push(mv), cs, j - 1, entries2);
                    },
                }
            }
        },
    }
}

/// Only the first registry section counts.  Beneath an earlier
/// commands-style table section, a later commands-style section is
/// invisible, entries and all: replacing its entries changes nothing about
/// what the document parses to, so none of them reaches the registry.
pub proof fn lemma_second_commands_ignored(
    path: Seq<char>,
    sections: Seq<(Seq<char>, RawSectionView)>,
    j: int,
    entries2: Seq<(Seq<char>, RawValueView)>,
)
    requires
        0 <= j < sections.len(),
        is_commands_name(sections[j].0),
        sections[j].1 is STable,
        exists|i: int|
            0 <= i < j && is_commands_name(sections[i].0) && (#[trigger] sections[i].1) is STable,
    ensures
        parse_doc(path, sections) == parse_doc(
            path,
            sections.update(j, (sections[j].0, RawSectionView::STable(entries2))),
        ),
{
    lemma_second_commands_from(path, sections, Seq::empty(), Seq::empty(), j, entries2);
}

} // verus!

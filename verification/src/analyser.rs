//! The analysis of a program: no name is declared twice, and there is a
//! function `main` whose parameters differ.

use crate::ast::{Ast, Declaration, DeclarationView, TopLevelStatement, TopLevelView};
use crate::grammar::{parse_source, ParseErrorView};
use crate::parser::{parse, ParseError};
use crate::text::str_equal;
use vstd::prelude::*;

verus! {

/// Why a program is not well formed.
#[derive(Debug)]
pub enum AnalyserError {
    ParseError(ParseError),
    /// A name that is declared twice at the top level, or twice among the
    /// parameters of `main`.
    DuplicateVariable(String),
    NoMain,
    MainIsNotAFunction,
}

/// An `AnalyserError` as a mathematical value.
pub enum AnalyserErrorView {
    ParseError(ParseErrorView),
    DuplicateVariable(Seq<char>),
    NoMain,
    MainIsNotAFunction,
}

impl View for AnalyserError {
    type V = AnalyserErrorView;

    open spec fn view(&self) -> AnalyserErrorView {
        match self {
            AnalyserError::ParseError(error) => AnalyserErrorView::ParseError(error@),
            AnalyserError::DuplicateVariable(name) => AnalyserErrorView::DuplicateVariable(name@),
            AnalyserError::NoMain => AnalyserErrorView::NoMain,
            AnalyserError::MainIsNotAFunction => AnalyserErrorView::MainIsNotAFunction,
        }
    }
}

impl From<ParseError> for AnalyserError {
    fn from(error: ParseError) -> (lifted: AnalyserError) {
        AnalyserError::ParseError(error)
    }
}

impl vstd::std_specs::convert::FromSpecImpl<ParseError> for AnalyserError {
    open spec fn obeys_from_spec() -> bool {
        true
    }

    open spec fn from_spec(error: ParseError) -> AnalyserError {
        AnalyserError::ParseError(error)
    }
}

/// The first name of a sequence that stands in it before, if there is one.
pub open spec fn first_repeated(names: Seq<Seq<char>>) -> Option<Seq<char>>
    decreases names.len(),
{
    if names.len() == 0 {
        None
    } else {
        match first_repeated(names.drop_last()) {
            Some(name) => Some(name),
            None => if names.drop_last().contains(names.last()) {
                Some(names.last())
            } else {
                None
            },
        }
    }
}

/// The names that the declarations of a program bind, in order.
pub open spec fn declared_names(program: Seq<TopLevelView>) -> Seq<Seq<char>> {
    program.map_values(|statement: TopLevelView| statement.decl.name())
}

/// The first declaration of a name in a program, if there is one.
pub open spec fn find_declaration(program: Seq<TopLevelView>, name: Seq<char>) -> Option<
    DeclarationView,
>
    decreases program.len(),
{
    if program.len() == 0 {
        None
    } else if program[0].decl.name() == name {
        Some(program[0].decl)
    } else {
        find_declaration(program.drop_first(), name)
    }
}

/// What the analysis of a program gives: the first name that is declared a
/// second time; else that there is no `main`, or that `main` is no function;
/// else the first parameter of `main` that is named a second time.
pub open spec fn analysis(program: Seq<TopLevelView>) -> Result<(), AnalyserErrorView> {
    match first_repeated(declared_names(program)) {
        Some(name) => Err(AnalyserErrorView::DuplicateVariable(name)),
        None => match find_declaration(program, "main"@) {
            None => Err(AnalyserErrorView::NoMain),
            Some(DeclarationView::FunctionDecl { arguments, .. }) => match first_repeated(
                arguments,
            ) {
                Some(name) => Err(AnalyserErrorView::DuplicateVariable(name)),
                None => Ok(()),
            },
            Some(DeclarationView::Assignment { .. }) => Err(AnalyserErrorView::MainIsNotAFunction),
        },
    }
}

/// What the analysis of a source text gives: the error of parsing it, or the
/// analysis of its program.
pub open spec fn source_analysis(src: Seq<char>) -> Result<(), AnalyserErrorView> {
    match parse_source(src) {
        Ok(program) => analysis(program),
        Err(error) => Err(AnalyserErrorView::ParseError(error)),
    }
}

/// A name is repeated in a sequence exactly when two places hold the same
/// name.
pub proof fn lemma_first_repeated(names: Seq<Seq<char>>)
    ensures
        first_repeated(names) is None <==> forall|i: int, j: int|
            0 <= i < j < names.len() ==> names[i] != names[j],
        first_repeated(names) matches Some(name) ==> names.contains(name),
    decreases names.len(),
{
    if names.len() > 0 {
        let rest = names.drop_last();
        lemma_first_repeated(rest);
        let last = names.len() - 1;
        if first_repeated(rest) is Some {
            let (i, j) = choose|i: int, j: int| 0 <= i < j < rest.len() && rest[i] == rest[j];
            assert(names[i] == names[j]);
            let k = choose|k: int| 0 <= k < rest.len() && rest[k] == first_repeated(rest)->Some_0;
            assert(names[k] == first_repeated(rest)->Some_0);
        } else if rest.contains(names.last()) {
            let i = choose|i: int| 0 <= i < rest.len() && rest[i] == names.last();
            assert(names[i] == names[last]);
        } else {
            assert forall|i: int, j: int| 0 <= i < j < names.len() implies names[i] != names[j] by {
                if j < last {
                    assert(rest[i] == names[i] && rest[j] == names[j]);
                } else {
                    assert(rest[i] == names[i]);
                }
            }
        }
    }
}

/// Whether `names[..upto]` holds the name.
fn stands_before(names: &Vec<&String>, upto: usize, name: &String) -> (found: bool)
    requires
        upto <= names.len(),
    ensures
        found == names@.map_values(|name: &String| name@).subrange(0, upto as int).contains(name@),
{
    let ghost all = names@.map_values(|name: &String| name@).subrange(0, upto as int);
    let mut i: usize = 0;
    while i < upto
        invariant
            i <= upto <= names.len(),
            all == names@.map_values(|name: &String| name@).subrange(0, upto as int),
            forall|j: int| 0 <= j < i ==> all[j] != name@,
        decreases upto - i,
    {
        if *names[i] == *name {
            assert(all[i as int] == name@);
            return true;
        }
        i += 1;
    }
    false
}

/// The first of the names that stands among them before.
fn find_repeated(names: &Vec<&String>) -> (repeated: Option<String>)
    ensures
        match first_repeated(names@.map_values(|name: &String| name@)) {
            Some(name) => repeated matches Some(found) && found@ == name,
            None => repeated is None,
        },
{
    let ghost all = names@.map_values(|name: &String| name@);
    let mut i: usize = 0;
    proof {
        assert(all.subrange(0, 0) =~= Seq::<Seq<char>>::empty());
    }
    while i < names.len()
        invariant
            i <= names.len(),
            all == names@.map_values(|name: &String| name@),
            first_repeated(all.subrange(0, i as int)) is None,
        decreases names.len() - i,
    {
        proof {
            assert(all.subrange(0, i + 1).drop_last() =~= all.subrange(0, i as int));
            assert(all.subrange(0, i + 1).last() == names[i as int]@);
            lemma_first_repeated_prefix(all, i + 1);
        }
        if stands_before(names, i, names[i]) {
            return Some(names[i].clone());
        }
        i += 1;
    }
    proof {
        assert(all.subrange(0, i as int) =~= all);
    }
    None
}

/// A name that is repeated within a prefix is the first repeated name of the
/// whole.
pub proof fn lemma_first_repeated_prefix(names: Seq<Seq<char>>, upto: int)
    requires
        0 <= upto <= names.len(),
    ensures
        first_repeated(names.subrange(0, upto)) is Some ==> first_repeated(names) == first_repeated(
            names.subrange(0, upto),
        ),
    decreases names.len() - upto,
{
    if upto < names.len() {
        lemma_first_repeated_prefix(names.drop_last(), upto);
        assert(names.drop_last().subrange(0, upto) =~= names.subrange(0, upto));
    } else {
        assert(names.subrange(0, upto) =~= names);
    }
}

/// Checks that a program declares no name twice and has a function `main`
/// whose parameters differ.
pub fn analyse(ast: &Ast) -> (r: Result<(), AnalyserError>)
    ensures
        match analysis(ast@) {
            Ok(_) => r is Ok,
            Err(error) => r matches Err(e) && e@ == error,
        },
{
    let mut names: Vec<&String> = Vec::new();
    let mut i: usize = 0;
    while i < ast.statements.len()
        invariant
            i <= ast.statements.len(),
            names.len() == i,
            forall|j: int| 0 <= j < i ==> (#[trigger] names[j])@ == ast@[j].decl.name(),
        decreases ast.statements.len() - i,
    {
        match &ast.statements[i] {
            TopLevelStatement::Declaration { decl, exported: _ } => {
                names.push(decl.name());
            },
        }
        i += 1;
    }
    proof {
        assert(names@.map_values(|name: &String| name@) =~= declared_names(ast@));
    }
    match find_repeated(&names) {
        Some(name) => {
            return Err(AnalyserError::DuplicateVariable(name));
        },
        None => {},
    }
    let mut i: usize = 0;
    proof {
        assert(ast@.subrange(0, ast@.len() as int) =~= ast@);
    }
    while i < ast.statements.len()
        invariant
            i <= ast.statements.len(),
            first_repeated(declared_names(ast@)) is None,
            find_declaration(ast@.subrange(i as int, ast@.len() as int), "main"@)
                == find_declaration(ast@, "main"@),
        decreases ast.statements.len() - i,
    {
        let ghost pending = ast@.subrange(i as int, ast@.len() as int);
        proof {
            assert(pending[0] == ast.statements[i as int].view());
            assert(pending.drop_first() =~= ast@.subrange(i + 1, ast@.len() as int));
        }
        match &ast.statements[i] {
            TopLevelStatement::Declaration { decl, exported: _ } => {
                if str_equal(decl.name().as_str(), "main") {
                    return match decl {
                        Declaration::FunctionDecl { name: _, arguments, body: _ } => {
                            let mut params: Vec<&String> = Vec::new();
                            let mut k: usize = 0;
                            while k < arguments.args.len()
                                invariant
                                    k <= arguments.args.len(),
                                    params.len() == k,
                                    forall|j: int|
                                        0 <= j < k ==> (#[trigger] params[j])@
                                            == arguments.args[j].name@,
                                decreases arguments.args.len() - k,
                            {
                                params.push(&arguments.args[k].name);
                                k += 1;
                            }
                            proof {
                                assert(params@.map_values(|name: &String| name@)
                                    =~= arguments.view());
                            }
                            match find_repeated(&params) {
                                Some(name) => Err(AnalyserError::DuplicateVariable(name)),
                                None => Ok(()),
                            }
                        },
                        Declaration::Assignment { .. } => Err(AnalyserError::MainIsNotAFunction),
                    };
                }
            },
        }
        i += 1;
    }
    Err(AnalyserError::NoMain)
}

/// Parses a source text and analyses its program.
pub fn analyse_source(source: &str) -> (r: Result<(), AnalyserError>)
    ensures
        match source_analysis(source@) {
            Ok(_) => r is Ok,
            Err(error) => r matches Err(e) && e@ == error,
        },
{
    match parse(source) {
        Ok(ast) => analyse(&ast),
        Err(error) => Err(AnalyserError::ParseError(error)),
    }
}

} // verus!

//! The environment of a running program: its variables, its constants, the
//! library, and the errors it has run into.

use crate::ast::{Expression, ExpressionView, Literal, LiteralView};
use crate::error::{error_views, ErrorType, ErrorView, VeloError};
use crate::text::joined3;
use vstd::prelude::*;
use vstd::string::*;

verus! {

/// A function that the runtime provides: its name, and the number of
/// arguments it takes where that is fixed.
#[derive(Debug, PartialEq, Eq)]
pub struct LibFunction {
    pub name: String,
    pub param_len: Option<usize>,
}

/// A library function as contracts speak of it.
pub struct LibFunctionView {
    pub name: Seq<char>,
    pub param_len: Option<usize>,
}

impl View for LibFunction {
    type V = LibFunctionView;

    open spec fn view(&self) -> LibFunctionView {
        LibFunctionView { name: self.name@, param_len: self.param_len }
    }
}

/// What a running program has declared, and the errors it has run into.
/// No two of its variables have the same name.
#[derive(Debug)]
pub struct Environment {
    errors: Vec<VeloError>,
    variables: Vec<(String, Expression)>,
    constants: Vec<Expression>,
    lib_functions: Vec<LibFunction>,
}

/// An environment as contracts speak of it.
pub struct EnvironmentView {
    pub errors: Seq<ErrorView>,
    pub variables: Seq<(Seq<char>, ExpressionView)>,
    pub constants: Seq<ExpressionView>,
    pub lib_functions: Seq<LibFunctionView>,
}

/// The message of the error that declaring a variable again records.
pub open spec fn redeclaration_message(name: Seq<char>) -> Seq<char> {
    "Variable with name '"@ + name + "' already exists, did you mean to use `:=` instead of `=`?"@
}

/// A runtime error, as contracts speak of it. It belongs to no line.
pub open spec fn runtime_error(message: Seq<char>) -> ErrorView {
    ErrorView { line: 0, message, error_type: ErrorType::RuntimeError }
}

/// The library functions that every environment starts with.
pub open spec fn standard_library() -> Seq<LibFunctionView> {
    seq![
        LibFunctionView { name: "print"@, param_len: Some(1usize) },
        LibFunctionView { name: "input"@, param_len: Some(1usize) },
    ]
}

/// The index of the first of `variables` from `from` on that is named
/// `name`; the number of variables where none is.
pub open spec fn first_named(variables: Seq<(Seq<char>, ExpressionView)>, name: Seq<char>, from: int) -> int
    decreases variables.len() - from,
{
    if from < 0 || from >= variables.len() {
        variables.len() as int
    } else if variables[from].0 == name {
        from
    } else {
        first_named(variables, name, from + 1)
    }
}

impl EnvironmentView {
    /// Whether a variable named `name` is declared.
    pub open spec fn has_variable(self, name: Seq<char>) -> bool {
        first_named(self.variables, name, 0) < self.variables.len()
    }

    /// The value of the variable named `name`.
    pub open spec fn value_of(self, name: Seq<char>) -> Option<ExpressionView> {
        if self.has_variable(name) {
            Some(self.variables[first_named(self.variables, name, 0)].1)
        } else {
            None
        }
    }

    /// Whether the library has a function named `name`.
    pub open spec fn has_library_function(self, name: Seq<char>) -> bool {
        exists|i: int|
            0 <= i < self.lib_functions.len() && (#[trigger] self.lib_functions[i]).name == name
    }

    /// No two variables have the same name.
    pub open spec fn wf(self) -> bool {
        forall|i: int, j: int|
            0 <= i < j < self.variables.len() ==> (#[trigger] self.variables[i]).0 != (
            #[trigger] self.variables[j]).0
    }

    /// The environment after `name` has been declared with `value`: a
    /// constant joins the constants; a variable joins the variables, unless
    /// one of that name exists, which is an error and changes nothing else.
    pub open spec fn declared(self, name: Seq<char>, value: ExpressionView, constant: bool) -> EnvironmentView {
        if constant {
            EnvironmentView { constants: self.constants.push(value), ..self }
        } else if self.has_variable(name) {
            EnvironmentView {
                errors: self.errors.push(runtime_error(redeclaration_message(name))),
                ..self
            }
        } else {
            EnvironmentView { variables: self.variables.push((name, value)), ..self }
        }
    }
}

/// Where the first variable of a name stands: at an index that holds the
/// name, behind indices that do not; or nowhere, and then no index holds it.
pub proof fn lemma_first_named(variables: Seq<(Seq<char>, ExpressionView)>, name: Seq<char>, from: int)
    requires
        0 <= from <= variables.len(),
    ensures
        from <= first_named(variables, name, from) <= variables.len(),
        first_named(variables, name, from) < variables.len() ==> variables[first_named(
            variables,
            name,
            from,
        )].0 == name,
        forall|i: int| from <= i < first_named(variables, name, from) ==> (#[trigger] variables[i]).0 != name,
    decreases variables.len() - from,
{
    if from < variables.len() && variables[from].0 != name {
        lemma_first_named(variables, name, from + 1);
    }
}

/// The first variable of a name is found at `k` if `k` holds the name and
/// no index from `from` up to `k` does.
pub proof fn lemma_first_named_is(
    variables: Seq<(Seq<char>, ExpressionView)>,
    name: Seq<char>,
    from: int,
    k: int,
)
    requires
        0 <= from <= k <= variables.len(),
        forall|i: int| from <= i < k ==> (#[trigger] variables[i]).0 != name,
        k < variables.len() ==> variables[k].0 == name,
    ensures
        first_named(variables, name, from) == k,
    decreases k - from,
{
    if from < k {
        assert(variables[from].0 != name);
        lemma_first_named_is(variables, name, from + 1, k);
    }
}

/// The views of a list of variables, in order.
pub open spec fn variable_views(vs: Seq<(String, Expression)>) -> Seq<(Seq<char>, ExpressionView)> {
    Seq::new(vs.len(), |i: int| (vs[i].0@, vs[i].1@))
}

/// The views of a list of expressions, in order.
pub open spec fn constant_views(cs: Seq<Expression>) -> Seq<ExpressionView> {
    Seq::new(cs.len(), |i: int| cs[i]@)
}

/// The views of a list of library functions, in order.
pub open spec fn library_views(fs: Seq<LibFunction>) -> Seq<LibFunctionView> {
    Seq::new(fs.len(), |i: int| fs[i]@)
}

impl View for Environment {
    type V = EnvironmentView;

    closed spec fn view(&self) -> EnvironmentView {
        EnvironmentView {
            errors: error_views(self.errors@),
            variables: variable_views(self.variables@),
            constants: constant_views(self.constants@),
            lib_functions: library_views(self.lib_functions@),
        }
    }
}

/// Declaring a variable twice records an error the second time and leaves
/// the variables, and so the value declared first, as they were.
pub proof fn lemma_second_declaration_fails(
    env: EnvironmentView,
    name: Seq<char>,
    first: ExpressionView,
    second: ExpressionView,
)
    requires
        !env.has_variable(name),
    ensures
        ({
            let once = env.declared(name, first, false);
            let twice = once.declared(name, second, false);
            &&& once.value_of(name) == Some(first)
            &&& twice.variables == once.variables
            &&& twice.value_of(name) == Some(first)
            &&& twice.errors == once.errors.push(runtime_error(redeclaration_message(name)))
        }),
{
    let once = env.declared(name, first, false);
    let last = env.variables.len() as int;
    lemma_first_named(env.variables, name, 0);
    assert forall|i: int| 0 <= i < last implies (#[trigger] once.variables[i]).0 != name by {
        assert(once.variables[i] == env.variables[i]);
    }
    lemma_first_named_is(once.variables, name, 0, last);
}

/// Declaring keeps the names of the variables apart.
pub proof fn lemma_declared_wf(
    env: EnvironmentView,
    name: Seq<char>,
    value: ExpressionView,
    constant: bool,
)
    requires
        env.wf(),
    ensures
        env.declared(name, value, constant).wf(),
{
    let after = env.declared(name, value, constant);
    if !constant && !env.has_variable(name) {
        lemma_first_named(env.variables, name, 0);
        assert forall|i: int, j: int| 0 <= i < j < after.variables.len() implies (
        #[trigger] after.variables[i]).0 != (#[trigger] after.variables[j]).0 by {
            if j == env.variables.len() {
                assert(after.variables[i] == env.variables[i]);
            } else {
                assert(after.variables[i] == env.variables[i]);
                assert(after.variables[j] == env.variables[j]);
            }
        }
    }
}

impl Environment {
    /// An environment with the standard library and nothing declared.
    pub fn init() -> (r: Environment)
        ensures
            r@.errors.len() == 0,
            r@.variables.len() == 0,
            r@.constants.len() == 0,
            r@.lib_functions == standard_library(),
            r@.wf(),
    {
        let mut lib_functions: Vec<LibFunction> = Vec::new();
        lib_functions.push(Environment::make_lib("print", Some(1)));
        lib_functions.push(Environment::make_lib("input", Some(1)));
        let r = Environment {
            errors: Vec::new(),
            variables: Vec::new(),
            constants: Vec::new(),
            lib_functions,
        };
        assert(r@.lib_functions =~= standard_library());
        r
    }

    /// A library function of the given name and number of arguments.
    pub fn make_lib(name: &str, param_len: Option<usize>) -> (r: LibFunction)
        ensures
            r@ == (LibFunctionView { name: name@, param_len }),
    {
        LibFunction { name: String::from_str(name), param_len }
    }

    /// The index of the variable named `name`, if it is declared.
    fn find(&self, name: &String) -> (r: Option<usize>)
        ensures
            r is Some <==> self@.has_variable(name@),
            r matches Some(i) ==> i < self.variables@.len() && self.variables@[i as int].0@
                == name@ && self@.value_of(name@) == Some(self.variables@[i as int].1@),
    {
        let mut i: usize = 0;
        while i < self.variables.len()
            invariant
                i <= self.variables.len(),
                first_named(self@.variables, name@, 0) == first_named(
                    self@.variables,
                    name@,
                    i as int,
                ),
            decreases self.variables.len() - i,
        {
            if self.variables[i].0 == *name {
                assert(self@.variables[i as int].0 == name@);
                return Some(i);
            }
            assert(self@.variables[i as int].0 != name@);
            i += 1;
        }
        None
    }

    /// The value of the variable named `name`, if it is declared.
    pub fn lookup(&self, name: &String) -> (r: Option<&Expression>)
        ensures
            r is Some <==> self@.has_variable(name@),
            r matches Some(e) ==> Some(e@) == self@.value_of(name@),
    {
        match self.find(name) {
            Some(i) => Some(&self.variables[i].1),
            None => None,
        }
    }

    /// Whether the library has a function named `name`.
    pub fn is_library_function(&self, name: &String) -> (r: bool)
        ensures
            r == self@.has_library_function(name@),
    {
        let mut i: usize = 0;
        while i < self.lib_functions.len()
            invariant
                i <= self.lib_functions.len(),
                forall|j: int| 0 <= j < i ==> (#[trigger] self@.lib_functions[j]).name != name@,
            decreases self.lib_functions.len() - i,
        {
            if self.lib_functions[i].name == *name {
                assert(self@.lib_functions[i as int].name == name@);
                return true;
            }
            i += 1;
        }
        false
    }

    /// The errors recorded so far, in order.
    pub fn errors(&self) -> (r: &Vec<VeloError>)
        ensures
            error_views(r@) == self@.errors,
    {
        &self.errors
    }

    /// Declares `name` with `value`. A constant joins the constants. A
    /// variable joins the variables, unless one of that name exists: then
    /// an error is recorded and the variables stay as they are. The null
    /// literal comes back in each case.
    pub fn declare_variable(&mut self, name: String, value: Expression, constant: bool) -> (r:
        Expression)
        ensures
            final(self)@ == old(self)@.declared(name@, value@, constant),
            old(self)@.wf() ==> final(self)@.wf(),
            r@ == ExpressionView::Literal(LiteralView::Null),
    {
        proof {
            if self@.wf() {
                lemma_declared_wf(self@, name@, value@, constant);
            }
        }
        if constant {
            self.constants.push(value);
            assert(constant_views(self.constants@) =~= constant_views(old(self).constants@).push(
                value@,
            ));
        } else {
            match self.find(&name) {
                Some(_) => {
                    let message = joined3(
                        "Variable with name '",
                        name.as_str(),
                        "' already exists, did you mean to use `:=` instead of `=`?",
                    );
                    self.throw_error(message);
                },
                None => {
                    self.variables.push((name, value));
                    assert(variable_views(self.variables@) =~= variable_views(
                        old(self).variables@,
                    ).push((name@, value@)));
                },
            }
        }
        Expression::Literal(Literal::Null)
    }

    /// Records a runtime error.
    pub fn throw_error(&mut self, message: String)
        ensures
            final(self)@ == (EnvironmentView {
                errors: old(self)@.errors.push(runtime_error(message@)),
                ..old(self)@
            }),
    {
        self.errors.push(VeloError { line: 0, message, error_type: ErrorType::RuntimeError });
        assert(error_views(self.errors@) =~= error_views(old(self).errors@).push(
            runtime_error(message@),
        ));
    }
}

} // verus!

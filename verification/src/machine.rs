//! The vocabulary of the steps: what a primitive asks of the interpreter core,
//! and where it goes on once it has been answered.
use vstd::prelude::*;
use crate::errors::LispError;
use crate::object::LispObject;

verus! {

/// What a primitive asks of the interpreter core. Each request is answered with
/// an object: the value of the call, and any object at all for a call that
/// returns nothing. A call that exits non-locally is not answered: the frame
/// that waits for it is dropped.
#[derive(Clone, Copy, Debug, PartialEq, Eq, Structural)]
pub enum Request {
    /// Evaluate `form`.
    Eval { form: LispObject },
    /// Call `func` without arguments.
    Funcall { func: LispObject },
    /// Call `func` with the elements of the list `arg`.
    Apply { func: LispObject, arg: LispObject },
    /// Set the value of the variable `sym`.
    SetValue { sym: LispObject, val: LispObject },
    /// Set the default value of the variable `sym`.
    SetDefault { sym: LispObject, val: LispObject },
    /// Copy `obj` to pure storage.
    Purecopy { obj: LispObject },
    /// Read the property `prop` of the symbol `sym`.
    Get { sym: LispObject, prop: LispObject },
    /// Set the property `prop` of the symbol `sym`.
    Put { sym: LispObject, prop: LispObject, val: LispObject },
    /// Note in the load history that `sym` is defined.
    LoadhistAttach { sym: LispObject },
    /// Give `sym` the function definition `def`.
    Defalias { sym: LispObject, def: LispObject, doc: LispObject },
    /// Load the definition of `name` if `def` says that it is still to be loaded.
    AutoloadDoLoad { def: LispObject, name: LispObject, macro_only: LispObject },
    /// Follow the function definitions of symbols, starting at `obj`.
    IndirectFunction { obj: LispObject },
    /// Bind the variable `sym` dynamically. To bind
    /// `internal-interpreter-environment` is to put `val` in force as the lexical
    /// environment of the heap.
    Specbind { sym: LispObject, val: LispObject },
    /// Undo the dynamic bindings above `count`, and return `val`. To undo a binding
    /// of `internal-interpreter-environment` is to put the lexical environment that
    /// was in force before it back in force.
    UnbindTo { count: i64, val: LispObject },
    /// Let the user quit.
    MaybeQuit,
}

/// What becomes of the value of a body.
#[derive(Clone, Copy, Debug, PartialEq, Eq, Structural)]
pub enum After {
    /// It is the result.
    Value,
    /// It is dropped, and `value` is the result.
    Constant { value: LispObject },
    /// It is dropped, and the loop of `test` and `body` goes on.
    Again { test: LispObject, body: LispObject },
    /// It is the result once the dynamic bindings above `count` are undone.
    Unbind { count: i64 },
}

/// A `let' form on its way: the variable list, what is left of it, the body, the
/// lexical environment, and the depth of the dynamic bindings at its beginning.
#[derive(Clone, Copy, Debug, PartialEq, Eq, Structural)]
pub struct Scope {
    pub varlist: LispObject,
    pub rest: LispObject,
    pub body: LispObject,
    pub lexenv: LispObject,
    pub count: i64,
}

/// Variables with the values that they are to have.
#[derive(Debug, PartialEq, Eq)]
pub enum Bindings {
    Empty,
    Bind { var: LispObject, val: LispObject, rest: Box<Bindings> },
}

/// Where a primitive goes on with the answer to its request.
#[derive(Debug, PartialEq, Eq)]
pub enum Frame {
    /// Return the answer.
    Return,
    /// Return `value`.
    Answer { value: LispObject },
    /// `or`, with the value of an argument.
    Or { rest: LispObject },
    /// `and`, with the value of an argument.
    And { rest: LispObject },
    /// `if`, with the value of the condition.
    If { cell: LispObject },
    /// `cond`, with the value of the condition of `clause`.
    Cond { clause: LispObject, rest: LispObject },
    /// A body, with the value of one of its forms.
    Progn { rest: LispObject, after: After },
    /// `prog1`, with the value of the first form.
    Prog1 { body: LispObject },
    /// `prog2`, with the value of the first form.
    Prog2 { rest: LispObject },
    /// `while`, with the value of the test.
    WhileTest { test: LispObject, body: LispObject },
    /// `while`, once the user did not quit.
    WhilePolled { test: LispObject, body: LispObject },
    /// `setq`, with the value for `sym`.
    SetqValue { list: LispObject, rest: LispObject, sym: LispObject, nargs: usize },
    /// `setq`, once a variable is set to `val`.
    SetqStored { list: LispObject, rest: LispObject, val: LispObject, nargs: usize },
    /// `defconst`, with the initial value.
    DefconstValue { sym: LispObject, docstring: LispObject },
    /// `defconst`, with the pure copy of the initial value.
    DefconstPure { sym: LispObject, docstring: LispObject },
    /// `defconst`, once the default value is set.
    DefconstStored { sym: LispObject, docstring: LispObject },
    /// `defconst`, with the pure copy of the documentation.
    DefconstDoc { sym: LispObject },
    /// `defconst`, once the documentation is recorded.
    DefconstRisky { sym: LispObject },
    /// `defconst`, once the variable is marked as risky.
    DefconstHistory { sym: LispObject },
    /// `let*`, once the user did not quit, at the element `binding`.
    LetStarPolled { scope: Scope, binding: LispObject },
    /// `let*`, with the value for `var`.
    LetStarValue { scope: Scope, var: LispObject },
    /// `let*`, once a variable is bound.
    LetStarBound { scope: Scope },
    /// `let`, with the value for `var`; `values` holds the earlier ones, the last first.
    LetValue { scope: Scope, var: LispObject, values: Bindings },
    /// `let`, once a variable is bound dynamically.
    LetBound { lexenv: LispObject, pending: Bindings, body: LispObject, count: i64 },
    /// `let`, once the lexical environment is in force.
    LetEntered { body: LispObject, count: i64 },
    /// `function`, with the documentation for the lambda expression whose
    /// arguments and body are `lambda`.
    FunctionDoc { lambda: LispObject },
    /// `macroexpand`, once the user did not quit, at `symbol`.
    MacroPolled { form: LispObject, body: LispObject, environment: LispObject, symbol: usize },
    /// `macroexpand`, with the definition at the end of the chain of symbols.
    MacroLoaded { form: LispObject, body: LispObject, environment: LispObject },
    /// `macroexpand`, with the expansion of `form`.
    MacroExpanded { form: LispObject, environment: LispObject },
    /// `commandp` of `function`, with the function at the end of the chain of symbols.
    CommandFound { function: LispObject, for_call_interactively: bool },
    /// `commandp`, with the `interactive-form` property of `symbol`.
    CommandProperty { symbol: usize, for_call_interactively: bool, has_property: bool },
}

/// How far a primitive has come.
#[derive(Debug, PartialEq, Eq)]
pub enum Step {
    /// It asks for something, and goes on in the frame.
    Call(Request, Frame),
    /// It returns a value.
    Done(LispObject),
    /// It signals an error.
    Fail(LispError),
}

impl Bindings {
    /// The pairs of variable and value, the first one in front.
    pub open spec fn pairs(self) -> Seq<(LispObject, LispObject)>
        decreases self,
    {
        match self {
            Bindings::Empty => Seq::empty(),
            Bindings::Bind { var, val, rest } => seq![(var, val)] + rest.pairs(),
        }
    }

    /// The bindings in the opposite order, in front of `tail`.
    pub open spec fn reversed_onto(self, tail: Bindings) -> Bindings
        decreases self,
    {
        match self {
            Bindings::Empty => tail,
            Bindings::Bind { var, val, rest } => rest.reversed_onto(
                Bindings::Bind { var, val, rest: Box::new(tail) },
            ),
        }
    }

    /// The bindings in the opposite order.
    pub fn reversed(self) -> (reversed: Bindings)
        ensures
            reversed == self.reversed_onto(Bindings::Empty),
    {
        let mut from = self;
        let mut onto = Bindings::Empty;
        loop
            invariant
                from.reversed_onto(onto) == self.reversed_onto(Bindings::Empty),
            decreases from,
        {
            match from {
                Bindings::Empty => {
                    return onto;
                },
                Bindings::Bind { var, val, rest } => {
                    onto = Bindings::Bind { var, val, rest: Box::new(onto) };
                    from = *rest;
                },
            }
        }
    }
}

} // verus!

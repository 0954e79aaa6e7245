//! Quoting functions, calling them, and expanding macros.
use vstd::prelude::*;
use crate::errors::LispError;
use crate::heap::{Heap, Memory};
use crate::lists::{assq, car, length};
use crate::machine::{Frame, Request, Step};
use crate::object::{
    LispObject, QCDOCUMENTATION, QCLOSURE, QCONSP, QFUNCTION, QLAMBDA, QMACRO, QNIL, QSTRINGP,
};

verus! {

impl Memory {
    /// The memory with (closure ENV . `lambda`), ENV the lexical environment, and
    /// that closure.
    pub open spec fn closure(self, lambda: LispObject) -> (Memory, LispObject) {
        let (m, captured) = self.consed(self.lexenv, lambda);
        m.consed(LispObject::Symbol(QCLOSURE), captured)
    }

    /// What follows :documentation in the first form of the body of the lambda
    /// expression whose arguments and body are `lambda`; none if that form is not
    /// (:documentation FORM).
    pub open spec fn lambda_documentation(self, lambda: LispObject) -> Option<LispObject> {
        match self.nth_cell(lambda, 1) {
            Some(body) => match self.cons(body.car) {
                Some(first) => if first.car == LispObject::Symbol(QCDOCUMENTATION) {
                    Some(first.cdr)
                } else {
                    None
                },
                None => None,
            },
            None => None,
        }
    }

    /// `function`: its argument is quoted, but in a lexical environment a lambda
    /// expression becomes a closure.
    pub open spec fn quote_function(self, args: LispObject) -> (Memory, Step) {
        match self.cons(args) {
            None => (self, Step::Fail(LispError::WrongType { predicate: QCONSP, value: args })),
            Some(cell) => if !cell.cdr.is_nil() {
                (
                    self,
                    Step::Fail(
                        match self.length(args) {
                            Ok(n) => LispError::WrongNumberOfArguments {
                                function: QFUNCTION,
                                count: n as usize,
                            },
                            Err(error) => error,
                        },
                    ),
                )
            } else {
                match self.cons(cell.car) {
                    Some(quoted) if !self.lexenv.is_nil() && quoted.car == LispObject::Symbol(
                        QLAMBDA,
                    ) => match self.lambda_documentation(quoted.cdr) {
                        Some(doc) => (
                            self,
                            match self.car(doc) {
                                Ok(form) => Step::Call(
                                    Request::Eval { form },
                                    Frame::FunctionDoc { lambda: quoted.cdr },
                                ),
                                Err(error) => Step::Fail(error),
                            },
                        ),
                        None => {
                            let (m, closure) = self.closure(quoted.cdr);
                            (m, Step::Done(closure))
                        },
                    },
                    _ => (self, Step::Done(cell.car)),
                }
            },
        }
    }

    /// `function` with the documentation `docstring` for the lambda expression
    /// whose arguments and body are `lambda`: a string takes the place of the first
    /// form of the body.
    pub open spec fn documented_closure(self, lambda: LispObject, docstring: LispObject) -> (
        Memory,
        Step,
    ) {
        if docstring is Str {
            let arguments = self.cons(lambda)->0;
            let body = self.cons(arguments.cdr)->0;
            let (m1, documented) = self.consed(docstring, body.cdr);
            let (m2, replaced) = m1.consed(arguments.car, documented);
            let (m3, closure) = m2.closure(replaced);
            (m3, Step::Done(closure))
        } else {
            (self, Step::Fail(LispError::WrongType { predicate: QSTRINGP, value: docstring }))
        }
    }

    /// The call of `func` with the elements of the list `arg`.
    pub open spec fn application(func: LispObject, arg: LispObject) -> Request {
        if arg.is_nil() {
            Request::Funcall { func }
        } else {
            Request::Apply { func, arg }
        }
    }

    /// `macroexpand` at `form`: a form that is no call is returned.
    pub open spec fn macroexpand(self, form: LispObject, environment: LispObject) -> Step {
        match self.cons(form) {
            None => Step::Done(form),
            Some(cell) => match cell.car {
                LispObject::Symbol(symbol) => Step::Call(
                    Request::MaybeQuit,
                    Frame::MacroPolled { form, body: cell.cdr, environment, symbol },
                ),
                head => Step::Call(
                    Request::AutoloadDoLoad {
                        def: head,
                        name: head,
                        macro_only: LispObject::Symbol(QMACRO),
                    },
                    Frame::MacroLoaded { form, body: cell.cdr, environment },
                ),
            },
        }
    }

    /// `macroexpand` at `symbol`, on the way from the head of `form` to its
    /// definition: a definition in `environment` decides; without one, the function
    /// definition of the symbol does, or the next symbol if that is a symbol.
    pub open spec fn macro_lookup(
        self,
        form: LispObject,
        body: LispObject,
        environment: LispObject,
        symbol: usize,
    ) -> Step {
        match self.assq(LispObject::Symbol(symbol), environment) {
            Err(error) => Step::Fail(error),
            Ok(found) => match self.cons(found) {
                Some(definition) => if definition.cdr.is_nil() {
                    Step::Done(form)
                } else {
                    Step::Call(
                        Memory::application(definition.cdr, body),
                        Frame::MacroExpanded { form, environment },
                    )
                },
                None => match self.function(symbol) {
                    LispObject::Symbol(next) if next != QNIL => Step::Call(
                        Request::MaybeQuit,
                        Frame::MacroPolled { form, body, environment, symbol: next },
                    ),
                    def => Step::Call(
                        Request::AutoloadDoLoad {
                            def,
                            name: LispObject::Symbol(symbol),
                            macro_only: LispObject::Symbol(QMACRO),
                        },
                        Frame::MacroLoaded { form, body, environment },
                    ),
                },
            },
        }
    }

    /// `macroexpand` with the definition `def` of the head of `form`: a macro is
    /// to be called, any other form is returned.
    pub open spec fn macro_loaded(
        self,
        form: LispObject,
        body: LispObject,
        environment: LispObject,
        def: LispObject,
    ) -> Step {
        match self.cons(def) {
            Some(definition) if definition.car == LispObject::Symbol(QMACRO) => Step::Call(
                Memory::application(definition.cdr, body),
                Frame::MacroExpanded { form, environment },
            ),
            _ => Step::Done(form),
        }
    }
}

/// Like `quote', but preferred for objects which are functions. In byte
/// compilation, `function' causes its argument to be compiled. `quote' cannot do
/// that. A lambda expression within a lexical environment becomes an interpreted
/// closure; the special form (:documentation FORM) at the beginning of its body
/// builds the documentation string.
/// usage: (function ARG)
pub fn function(heap: &mut Heap, args: LispObject) -> (step: Step)
    ensures
        (final(heap)@, step) == old(heap)@.quote_function(args),
{
    let cell = match heap.cons_at(args) {
        Some(cell) => cell,
        None => {
            return Step::Fail(LispError::WrongType { predicate: QCONSP, value: args });
        },
    };
    if !cell.cdr.is_nil() {
        return match length(heap, args) {
            Ok(n) => Step::Fail(
                LispError::WrongNumberOfArguments { function: QFUNCTION, count: n },
            ),
            Err(error) => Step::Fail(error),
        };
    }
    if !heap.lexenv().is_nil() {
        if let Some(quoted) = heap.cons_at(cell.car) {
            if quoted.car == LispObject::Symbol(QLAMBDA) {
                return match lambda_documentation(heap, quoted.cdr) {
                    Some(doc) => match car(heap, doc) {
                        Ok(form) => Step::Call(
                            Request::Eval { form },
                            Frame::FunctionDoc { lambda: quoted.cdr },
                        ),
                        Err(error) => Step::Fail(error),
                    },
                    None => Step::Done(make_closure(heap, quoted.cdr)),
                };
            }
        }
    }
    // Simply quote the argument.
    Step::Done(cell.car)
}

/// What follows :documentation in the first form of the body of a lambda expression.
fn lambda_documentation(heap: &Heap, lambda: LispObject) -> (doc: Option<LispObject>)
    ensures
        doc == heap@.lambda_documentation(lambda),
{
    proof {
        reveal_with_fuel(Memory::tail, 2);
    }
    let arguments = match heap.cons_at(lambda) {
        Some(arguments) => arguments,
        None => {
            return None;
        },
    };
    let body = match heap.cons_at(arguments.cdr) {
        Some(body) => body,
        None => {
            return None;
        },
    };
    match heap.cons_at(body.car) {
        Some(first) => if first.car == LispObject::Symbol(QCDOCUMENTATION) {
            Some(first.cdr)
        } else {
            None
        },
        None => None,
    }
}

/// Makes a closure of the lexical environment and a lambda expression.
fn make_closure(heap: &mut Heap, lambda: LispObject) -> (closure: LispObject)
    ensures
        (final(heap)@, closure) == old(heap)@.closure(lambda),
{
    let lexenv = heap.lexenv();
    let captured = heap.cons(lexenv, lambda);
    heap.cons(LispObject::Symbol(QCLOSURE), captured)
}

/// Goes on with `function` with the documentation `docstring`.
pub fn function_documented(heap: &mut Heap, lambda: LispObject, docstring: LispObject) -> (step:
    Step)
    requires
        docstring is Str ==> old(heap)@.nth_cell(lambda, 1) is Some,
    ensures
        (final(heap)@, step) == old(heap)@.documented_closure(lambda, docstring),
{
    proof {
        reveal_with_fuel(Memory::tail, 2);
    }
    match docstring {
        LispObject::Str(_) => {
            let arguments = heap.cell(lambda);
            let body = heap.cell(arguments.cdr);
            let documented = heap.cons(docstring, body.cdr);
            let replaced = heap.cons(arguments.car, documented);
            Step::Done(make_closure(heap, replaced))
        },
        _ => Step::Fail(LispError::WrongType { predicate: QSTRINGP, value: docstring }),
    }
}

/// The call of `func` with the elements of the list `arg`.
fn application(func: LispObject, arg: LispObject) -> (request: Request)
    ensures
        request == Memory::application(func, arg),
{
    if arg.is_nil() {
        Request::Funcall { func }
    } else {
        Request::Apply { func, arg }
    }
}

/// Applies `func` to the elements of the list `arg`.
pub fn apply1(func: LispObject, arg: LispObject) -> (step: Step)
    ensures
        step == Step::Call(Memory::application(func, arg), Frame::Return),
{
    Step::Call(application(func, arg), Frame::Return)
}

/// Returns the result of expanding macros at top level of FORM. If FORM is not a
/// macro call, it is returned unchanged. Otherwise, the macro is expanded and the
/// expansion is considered in place of FORM. When a non-macro-call results, it is
/// returned.
///
/// The second optional arg ENVIRONMENT specifies an environment of macro
/// definitions to shadow the loaded ones for use in file byte-compilation.
pub fn macroexpand(heap: &Heap, form: LispObject, environment: LispObject) -> (step: Step)
    ensures
        step == heap@.macroexpand(form, environment),
{
    match heap.cons_at(form) {
        None => Step::Done(form),
        Some(cell) => match cell.car {
            LispObject::Symbol(symbol) => Step::Call(
                Request::MaybeQuit,
                Frame::MacroPolled { form, body: cell.cdr, environment, symbol },
            ),
            head => Step::Call(
                Request::AutoloadDoLoad {
                    def: head,
                    name: head,
                    macro_only: LispObject::Symbol(QMACRO),
                },
                Frame::MacroLoaded { form, body: cell.cdr, environment },
            ),
        },
    }
}

/// Goes on with `macroexpand` at `symbol`, on the way from the head of `form` to
/// its definition.
pub fn macro_polled(
    heap: &Heap,
    form: LispObject,
    body: LispObject,
    environment: LispObject,
    symbol: usize,
) -> (step: Step)
    ensures
        step == heap@.macro_lookup(form, body, environment, symbol),
{
    match assq(heap, LispObject::Symbol(symbol), environment) {
        Err(error) => Step::Fail(error),
        Ok(found) => match heap.cons_at(found) {
            Some(definition) => if definition.cdr.is_nil() {
                Step::Done(form)
            } else {
                Step::Call(
                    application(definition.cdr, body),
                    Frame::MacroExpanded { form, environment },
                )
            },
            None => match heap.function(symbol) {
                LispObject::Symbol(next) if next != QNIL => Step::Call(
                    Request::MaybeQuit,
                    Frame::MacroPolled { form, body, environment, symbol: next },
                ),
                def => Step::Call(
                    Request::AutoloadDoLoad {
                        def,
                        name: LispObject::Symbol(symbol),
                        macro_only: LispObject::Symbol(QMACRO),
                    },
                    Frame::MacroLoaded { form, body, environment },
                ),
            },
        },
    }
}

/// Goes on with `macroexpand` with the definition `def` of the head of `form`.
pub fn macro_loaded(
    heap: &Heap,
    form: LispObject,
    body: LispObject,
    environment: LispObject,
    def: LispObject,
) -> (step: Step)
    ensures
        step == heap@.macro_loaded(form, body, environment, def),
{
    match heap.cons_at(def) {
        Some(definition) => if definition.car == LispObject::Symbol(QMACRO) {
            Step::Call(
                application(definition.cdr, body),
                Frame::MacroExpanded { form, environment },
            )
        } else {
            Step::Done(form)
        },
        None => Step::Done(form),
    }
}

/// Goes on with `macroexpand` with the expansion `newform` of `form`. A macro that
/// returns its own call is not expanded again.
pub fn macro_expanded(
    heap: &Heap,
    form: LispObject,
    environment: LispObject,
    newform: LispObject,
) -> (step: Step)
    ensures
        step == if newform == form {
            Step::Done(form)
        } else {
            heap@.macroexpand(newform, environment)
        },
{
    if newform == form {
        Step::Done(form)
    } else {
        macroexpand(heap, newform, environment)
    }
}

} // verus!

//! `let` and `let*`.
use vstd::prelude::*;
use crate::control::progn_next;
use crate::errors::LispError;
use crate::heap::{Heap, Memory};
use crate::lists::{list_end, memq, next_cell};
use crate::machine::{After, Bindings, Frame, Request, Scope, Step};
use crate::object::{
    LispCons, LispObject, QCONSP, QINTERNAL_INTERPRETER_ENVIRONMENT, QLISTP, QNIL,
};

verus! {

/// What an element of a variable list says of its variable.
#[derive(Clone, Copy, Debug, PartialEq, Eq, Structural)]
pub enum LetBinding {
    /// The variable is bound to nil.
    Unset { var: LispObject },
    /// The variable is bound to the value of `form`.
    Form { var: LispObject, form: LispObject },
}

impl LetBinding {
    /// The variable.
    pub open spec fn var(self) -> LispObject {
        match self {
            LetBinding::Unset { var } => var,
            LetBinding::Form { var, .. } => var,
        }
    }
}

impl Memory {
    /// What the element `obj` of a variable list says: a symbol is bound to nil,
    /// (SYMBOL) and (SYMBOL FORM) to the value of the form, nil if there is none.
    pub open spec fn let_binding_value(self, obj: LispObject) -> Result<LetBinding, LispError> {
        match (obj, self.cons(obj)) {
            (LispObject::Symbol(_), _) => Ok(LetBinding::Unset { var: obj }),
            (_, None) => Err(LispError::WrongType { predicate: QCONSP, value: obj }),
            (_, Some(front)) => if front.cdr.is_nil() {
                Ok(LetBinding::Form { var: front.car, form: LispObject::nil() })
            } else {
                match self.cons(front.cdr) {
                    None => Err(LispError::WrongType { predicate: QCONSP, value: front.cdr }),
                    Some(value) => if value.cdr.is_nil() {
                        Ok(LetBinding::Form { var: front.car, form: value.car })
                    } else {
                        Err(LispError::LetBinding { binding: obj })
                    },
                }
            },
        }
    }

    /// Whether `var` is bound lexically in a form that began with the environment
    /// `lexenv`: lexical binding is in force, and `var` is a symbol that is neither
    /// declared special nor an element of the current environment.
    pub open spec fn binds_lexically(self, lexenv: LispObject, var: LispObject) -> Result<
        bool,
        LispError,
    > {
        match var {
            LispObject::Symbol(id) => if lexenv.is_nil() || self.special(id) {
                Ok(false)
            } else {
                match self.memq(var, self.lexenv) {
                    Ok(found) => Ok(found.is_nil()),
                    Err(error) => Err(error),
                }
            },
            _ => Ok(false),
        }
    }

    /// The memory with the pair of `var` and `val` in front of `lexenv`, and that
    /// environment.
    pub open spec fn extended(
        self,
        var: LispObject,
        val: LispObject,
        lexenv: LispObject,
    ) -> (Memory, LispObject) {
        let (paired, pair) = self.consed(var, val);
        paired.consed(pair, lexenv)
    }

    /// `let*` at the next element of its variable list, or at its body.
    pub open spec fn let_star_step(self, scope: Scope) -> Step {
        match self.next_cell(scope.varlist, scope.rest) {
            Err(error) => Step::Fail(error),
            Ok(Some(cell)) => Step::Call(
                Request::MaybeQuit,
                Frame::LetStarPolled {
                    scope: Scope { rest: cell.cdr, ..scope },
                    binding: cell.car,
                },
            ),
            Ok(None) => self.progn_step(
                scope.body,
                LispObject::nil(),
                After::Unbind { count: scope.count },
            ),
        }
    }

    /// `let*` with the value `val` for `var`. A lexical binding goes in front of
    /// the environment; only the first one asks for the old environment to be
    /// restored at the end.
    pub open spec fn let_star_bind(self, scope: Scope, var: LispObject, val: LispObject) -> (
        Memory,
        Step,
    ) {
        match self.binds_lexically(scope.lexenv, var) {
            Err(error) => (self, Step::Fail(error)),
            Ok(false) => (
                self,
                Step::Call(Request::Specbind { sym: var, val }, Frame::LetStarBound { scope }),
            ),
            Ok(true) => {
                let (m, newenv) = self.extended(var, val, self.lexenv);
                if self.lexenv == scope.lexenv {
                    (
                        m,
                        Step::Call(
                            Request::Specbind {
                                sym: LispObject::Symbol(QINTERNAL_INTERPRETER_ENVIRONMENT),
                                val: newenv,
                            },
                            Frame::LetStarBound { scope },
                        ),
                    )
                } else {
                    (m.with_lexenv(newenv), m.with_lexenv(newenv).let_star_step(scope))
                }
            },
        }
    }

    /// `let*` at the element `binding` of its variable list.
    pub open spec fn let_star_binding(self, scope: Scope, binding: LispObject) -> (Memory, Step) {
        match self.let_binding_value(binding) {
            Err(error) => (self, Step::Fail(error)),
            Ok(LetBinding::Unset { var }) => self.let_star_bind(scope, var, LispObject::nil()),
            Ok(LetBinding::Form { var, form }) => (
                self,
                Step::Call(Request::Eval { form }, Frame::LetStarValue { scope, var }),
            ),
        }
    }

    /// `let` with `n` elements of its variable list ahead and the values in
    /// `values`: symbols are passed over up to the next value form; once all the
    /// values are there, the variables are bound.
    pub open spec fn let_values(self, scope: Scope, n: nat, values: Bindings) -> (Memory, Step)
        decreases n,
    {
        match self.cons(scope.rest) {
            Some(cell) if n > 0 => {
                let ahead = Scope { rest: cell.cdr, ..scope };
                match self.let_binding_value(cell.car) {
                    Err(error) => (self, Step::Fail(error)),
                    Ok(LetBinding::Unset { var }) => self.let_values(
                        ahead,
                        (n - 1) as nat,
                        Bindings::Bind { var, val: LispObject::nil(), rest: Box::new(values) },
                    ),
                    Ok(LetBinding::Form { var, form }) => (
                        self,
                        Step::Call(
                            Request::Eval { form },
                            Frame::LetValue { scope: ahead, var, values },
                        ),
                    ),
                }
            },
            _ => if scope.rest.is_nil() {
                self.let_bind(
                    scope.lexenv,
                    values.reversed_onto(Bindings::Empty),
                    scope.body,
                    scope.count,
                )
            } else {
                (
                    self,
                    Step::Fail(LispError::WrongType { predicate: QLISTP, value: scope.varlist }),
                )
            },
        }
    }

    /// `let` at the next value form of its variable list, or past the last one.
    pub open spec fn let_step(self, scope: Scope, values: Bindings) -> (Memory, Step) {
        match self.list_end(scope.rest) {
            None => (self, Step::Fail(LispError::CircularList { list: scope.varlist })),
            Some((n, _)) => self.let_values(scope, n, values),
        }
    }

    /// `let` with the bindings `pending` still to be made, in order. Lexical
    /// bindings gather in `lexenv`, which comes into force after the last one.
    pub open spec fn let_bind(
        self,
        lexenv: LispObject,
        pending: Bindings,
        body: LispObject,
        count: i64,
    ) -> (Memory, Step)
        decreases pending,
    {
        match pending {
            Bindings::Empty => (
                self,
                if lexenv != self.lexenv {
                    Step::Call(
                        Request::Specbind {
                            sym: LispObject::Symbol(QINTERNAL_INTERPRETER_ENVIRONMENT),
                            val: lexenv,
                        },
                        Frame::LetEntered { body, count },
                    )
                } else {
                    self.progn_step(body, LispObject::nil(), After::Unbind { count })
                },
            ),
            Bindings::Bind { var, val, rest } => match self.binds_lexically(lexenv, var) {
                Err(error) => (self, Step::Fail(error)),
                Ok(true) => {
                    let (m, newenv) = self.extended(var, val, lexenv);
                    m.let_bind(newenv, *rest, body, count)
                },
                Ok(false) => (
                    self,
                    Step::Call(
                        Request::Specbind { sym: var, val },
                        Frame::LetBound { lexenv, pending: *rest, body, count },
                    ),
                ),
            },
        }
    }
}

/// Reads an element of a variable list, which is a symbol or a list of a symbol
/// and at most one value form.
/// a -> a, bound to nil
/// (a) -> a, bound to the value of nil
/// (a (* 5 (+ 2 1))) -> a, bound to the value of (* 5 (+ 2 1))
pub fn let_binding_value(heap: &Heap, obj: LispObject) -> (binding: Result<LetBinding, LispError>)
    ensures
        binding == heap@.let_binding_value(obj),
{
    if let LispObject::Symbol(_) = obj {
        return Ok(LetBinding::Unset { var: obj });
    }
    match heap.cons_at(obj) {
        None => Err(LispError::WrongType { predicate: QCONSP, value: obj }),
        Some(front) => if front.cdr.is_nil() {
            Ok(LetBinding::Form { var: front.car, form: LispObject::Symbol(QNIL) })
        } else {
            match heap.cons_at(front.cdr) {
                None => Err(LispError::WrongType { predicate: QCONSP, value: front.cdr }),
                Some(value) => if value.cdr.is_nil() {
                    Ok(LetBinding::Form { var: front.car, form: value.car })
                } else {
                    Err(LispError::LetBinding { binding: obj })
                },
            }
        },
    }
}

/// Whether `var` is bound lexically in a form that began with the environment `lexenv`.
fn binds_lexically(heap: &Heap, lexenv: LispObject, var: LispObject) -> (lexical: Result<
    bool,
    LispError,
>)
    ensures
        lexical == heap@.binds_lexically(lexenv, var),
{
    match var {
        LispObject::Symbol(id) => if lexenv.is_nil() || heap.declared_special(id) {
            Ok(false)
        } else {
            match memq(heap, var, heap.lexenv()) {
                Ok(found) => Ok(found.is_nil()),
                Err(error) => Err(error),
            }
        },
        _ => Ok(false),
    }
}

/// Puts the pair of `var` and `val` in front of `lexenv`.
fn extend(heap: &mut Heap, var: LispObject, val: LispObject, lexenv: LispObject) -> (newenv:
    LispObject)
    ensures
        (final(heap)@, newenv) == old(heap)@.extended(var, val, lexenv),
{
    let pair = heap.cons(var, val);
    heap.cons(pair, lexenv)
}

/// Binds variables according to VARLIST, one after the other, and evaluates BODY.
/// The value of the last form in BODY is returned. Each element of VARLIST is a
/// symbol (which is bound to nil) or a list (SYMBOL VALUEFORM) (which binds SYMBOL
/// to the value of VALUEFORM). Each VALUEFORM can refer to the symbols already
/// bound by this VARLIST. `count` is the depth of the dynamic bindings.
/// usage: (let* VARLIST BODY...)
#[allow(non_snake_case)]
pub fn letX(heap: &Heap, args: LispCons, count: i64) -> (step: Step)
    requires
        heap@.cons(args.as_lisp_obj()) is Some,
    ensures
        heap@.cons(args.as_lisp_obj()) matches Some(cell) && step == heap@.let_star_step(
            Scope {
                varlist: cell.car,
                rest: cell.car,
                body: cell.cdr,
                lexenv: heap@.lexenv,
                count,
            },
        ),
{
    let cell = heap.cell(args.as_lisp_obj());
    let_star_next(
        heap,
        Scope {
            varlist: cell.car,
            rest: cell.car,
            body: cell.cdr,
            lexenv: heap.lexenv(),
            count,
        },
    )
}

/// Goes on with `let*` at the next element of its variable list, or at its body.
pub fn let_star_next(heap: &Heap, scope: Scope) -> (step: Step)
    ensures
        step == heap@.let_star_step(scope),
{
    match next_cell(heap, scope.varlist, scope.rest) {
        Err(error) => Step::Fail(error),
        Ok(Some(cell)) => Step::Call(
            Request::MaybeQuit,
            Frame::LetStarPolled { scope: Scope { rest: cell.cdr, ..scope }, binding: cell.car },
        ),
        Ok(None) => progn_next(
            heap,
            scope.body,
            LispObject::Symbol(QNIL),
            After::Unbind { count: scope.count },
        ),
    }
}

/// Goes on with `let*` at the element `binding` of its variable list.
pub fn let_star_polled(heap: &mut Heap, scope: Scope, binding: LispObject) -> (step: Step)
    ensures
        (final(heap)@, step) == old(heap)@.let_star_binding(scope, binding),
{
    match let_binding_value(heap, binding) {
        Err(error) => Step::Fail(error),
        Ok(LetBinding::Unset { var }) => let_star_bind(heap, scope, var, LispObject::Symbol(QNIL)),
        Ok(LetBinding::Form { var, form }) => Step::Call(
            Request::Eval { form },
            Frame::LetStarValue { scope, var },
        ),
    }
}

/// Goes on with `let*` with the value `val` for `var`.
pub fn let_star_bind(heap: &mut Heap, scope: Scope, var: LispObject, val: LispObject) -> (step:
    Step)
    ensures
        (final(heap)@, step) == old(heap)@.let_star_bind(scope, var, val),
{
    match binds_lexically(heap, scope.lexenv, var) {
        Err(error) => Step::Fail(error),
        Ok(false) => Step::Call(Request::Specbind { sym: var, val }, Frame::LetStarBound { scope }),
        Ok(true) => {
            let lexenv = heap.lexenv();
            let newenv = extend(heap, var, val, lexenv);
            if lexenv == scope.lexenv {
                Step::Call(
                    Request::Specbind {
                        sym: LispObject::Symbol(QINTERNAL_INTERPRETER_ENVIRONMENT),
                        val: newenv,
                    },
                    Frame::LetStarBound { scope },
                )
            } else {
                heap.set_lexenv(newenv);
                let_star_next(heap, scope)
            }
        },
    }
}

/// Binds variables according to VARLIST, all at once, and evaluates BODY. The
/// value of the last form in BODY is returned. Each element of VARLIST is a symbol
/// (which is bound to nil) or a list (SYMBOL VALUEFORM) (which binds SYMBOL to the
/// value of VALUEFORM). All the VALUEFORMs are evaluated before any symbols are
/// bound. `count` is the depth of the dynamic bindings.
/// usage: (let VARLIST BODY...)
pub fn lisp_let(heap: &mut Heap, args: LispCons, count: i64) -> (step: Step)
    requires
        old(heap)@.cons(args.as_lisp_obj()) is Some,
    ensures
        old(heap)@.cons(args.as_lisp_obj()) matches Some(cell) && (final(heap)@, step) == old(
            heap,
        )@.let_step(
            Scope {
                varlist: cell.car,
                rest: cell.car,
                body: cell.cdr,
                lexenv: old(heap)@.lexenv,
                count,
            },
            Bindings::Empty,
        ),
{
    let cell = heap.cell(args.as_lisp_obj());
    let lexenv = heap.lexenv();
    let_next(
        heap,
        Scope { varlist: cell.car, rest: cell.car, body: cell.cdr, lexenv, count },
        Bindings::Empty,
    )
}

/// Goes on with `let` at the next value form of its variable list, or past the last one.
pub fn let_next(heap: &mut Heap, scope: Scope, values: Bindings) -> (step: Step)
    ensures
        (final(heap)@, step) == old(heap)@.let_step(scope, values),
{
    match list_end(heap, scope.rest) {
        None => Step::Fail(LispError::CircularList { list: scope.varlist }),
        Some((n, _)) => let_values(heap, scope, n, values),
    }
}

/// Goes on with `let` with `n` elements of its variable list ahead.
fn let_values(heap: &mut Heap, scope: Scope, n: usize, values: Bindings) -> (step: Step)
    ensures
        (final(heap)@, step) == old(heap)@.let_values(scope, n as nat, values),
{
    let ghost goal = heap@.let_values(scope, n as nat, values);
    let mut here = scope;
    let mut left: usize = n;
    let mut known = values;
    loop
        invariant
            heap@ == old(heap)@,
            goal == old(heap)@.let_values(scope, n as nat, values),
            goal == heap@.let_values(here, left as nat, known),
        decreases left,
    {
        match heap.cons_at(here.rest) {
            Some(cell) if left > 0 => {
                let ahead = Scope { rest: cell.cdr, ..here };
                match let_binding_value(heap, cell.car) {
                    Err(error) => {
                        return Step::Fail(error);
                    },
                    Ok(LetBinding::Unset { var }) => {
                        here = ahead;
                        left = left - 1;
                        known =
                        Bindings::Bind {
                            var,
                            val: LispObject::Symbol(QNIL),
                            rest: Box::new(known),
                        };
                    },
                    Ok(LetBinding::Form { var, form }) => {
                        return Step::Call(
                            Request::Eval { form },
                            Frame::LetValue { scope: ahead, var, values: known },
                        );
                    },
                }
            },
            _ => {
                return if here.rest.is_nil() {
                    let_bind(heap, here.lexenv, known.reversed(), here.body, here.count)
                } else {
                    Step::Fail(LispError::WrongType { predicate: QLISTP, value: here.varlist })
                };
            },
        }
    }
}

/// Goes on with `let` with the bindings `pending` still to be made.
pub fn let_bind(
    heap: &mut Heap,
    lexenv: LispObject,
    pending: Bindings,
    body: LispObject,
    count: i64,
) -> (step: Step)
    ensures
        (final(heap)@, step) == old(heap)@.let_bind(lexenv, pending, body, count),
{
    let ghost goal = heap@.let_bind(lexenv, pending, body, count);
    let mut env = lexenv;
    let mut left = pending;
    loop
        invariant
            goal == old(heap)@.let_bind(lexenv, pending, body, count),
            goal == heap@.let_bind(env, left, body, count),
        decreases left,
    {
        match left {
            Bindings::Empty => {
                return if env != heap.lexenv() {
                    Step::Call(
                        Request::Specbind {
                            sym: LispObject::Symbol(QINTERNAL_INTERPRETER_ENVIRONMENT),
                            val: env,
                        },
                        Frame::LetEntered { body, count },
                    )
                } else {
                    progn_next(heap, body, LispObject::Symbol(QNIL), After::Unbind { count })
                };
            },
            Bindings::Bind { var, val, rest } => {
                match binds_lexically(heap, env, var) {
                    Err(error) => {
                        return Step::Fail(error);
                    },
                    Ok(true) => {
                        env = extend(heap, var, val, env);
                        left = *rest;
                    },
                    Ok(false) => {
                        return Step::Call(
                            Request::Specbind { sym: var, val },
                            Frame::LetBound { lexenv: env, pending: *rest, body, count },
                        );
                    },
                }
            },
        }
    }
}

} // verus!

//! Conditionals, sequencing and loops.
use vstd::prelude::*;
use crate::errors::LispError;
use crate::heap::{Heap, Memory};
use crate::machine::{After, Frame, Request, Step};
use crate::object::{LispCons, LispObject, QCONSP, QNIL, QT};

verus! {

impl After {
    /// The step after a body with the value `val`.
    pub open spec fn step(self, val: LispObject) -> Step {
        match self {
            After::Value => Step::Done(val),
            After::Constant { value } => Step::Done(value),
            After::Again { test, body } => Step::Call(
                Request::Eval { form: test },
                Frame::WhileTest { test, body },
            ),
            After::Unbind { count } => Step::Call(Request::UnbindTo { count, val }, Frame::Return),
        }
    }
}

impl Memory {
    /// `or` at `rest`: the next argument is to be evaluated; nil if there is none.
    pub open spec fn or_step(self, rest: LispObject) -> Step {
        match self.cons(rest) {
            Some(cell) => Step::Call(
                Request::Eval { form: cell.car },
                Frame::Or { rest: cell.cdr },
            ),
            None => Step::Done(LispObject::nil()),
        }
    }

    /// `and` at `rest`, after `val`: the next argument is to be evaluated; `val`
    /// if there is none.
    pub open spec fn and_step(self, rest: LispObject, val: LispObject) -> Step {
        match self.cons(rest) {
            Some(cell) => Step::Call(
                Request::Eval { form: cell.car },
                Frame::And { rest: cell.cdr },
            ),
            None => Step::Done(val),
        }
    }

    /// A body at `rest`, after `val`: the next form is to be evaluated; what
    /// follows the body if there is none.
    pub open spec fn progn_step(self, rest: LispObject, val: LispObject, after: After) -> Step {
        match self.cons(rest) {
            Some(cell) => Step::Call(
                Request::Eval { form: cell.car },
                Frame::Progn { rest: cell.cdr, after },
            ),
            None => after.step(val),
        }
    }

    /// The forms of a body, evaluated in order.
    pub open spec fn progn(self, body: LispObject) -> Step {
        self.progn_step(body, LispObject::nil(), After::Value)
    }

    /// The forms of a body, evaluated in order for nothing but their effects.
    pub open spec fn prog_ignore(self, body: LispObject) -> Step {
        self.progn_step(body, LispObject::nil(), After::Constant { value: LispObject::nil() })
    }

    /// `if`: the condition is to be evaluated.
    pub open spec fn lisp_if(self, args: LispObject) -> Step {
        match self.cons(args) {
            Some(cell) => Step::Call(Request::Eval { form: cell.car }, Frame::If { cell: args }),
            None => Step::Fail(LispError::WrongType { predicate: QCONSP, value: args }),
        }
    }

    /// `if` after its condition: the next form if the condition holds, the forms
    /// after that if it does not.
    pub open spec fn if_chosen(self, cell: LispObject, cond: LispObject) -> Step {
        let branches = self.cons(cell)->0.cdr;
        match self.cons(branches) {
            Some(b) => if !cond.is_nil() {
                Step::Call(Request::Eval { form: b.car }, Frame::Return)
            } else {
                self.progn(b.cdr)
            },
            None => Step::Fail(LispError::WrongType { predicate: QCONSP, value: branches }),
        }
    }

    /// `cond` at `rest`: the condition of the next clause is to be evaluated; nil
    /// if there is none.
    pub open spec fn cond_step(self, rest: LispObject) -> Step {
        match self.cons(rest) {
            Some(cell) => match self.cons(cell.car) {
                Some(clause) => Step::Call(
                    Request::Eval { form: clause.car },
                    Frame::Cond { clause: cell.car, rest: cell.cdr },
                ),
                None => Step::Fail(LispError::WrongType { predicate: QCONSP, value: cell.car }),
            },
            None => Step::Done(LispObject::nil()),
        }
    }

    /// `cond` after the condition of `clause`: the clause's body if the condition
    /// holds, the value of the condition if the clause has no body, the next
    /// clause if the condition does not hold.
    pub open spec fn cond_chosen(
        self,
        clause: LispObject,
        rest: LispObject,
        val: LispObject,
    ) -> Step {
        if val.is_nil() {
            self.cond_step(rest)
        } else {
            let body = self.cons(clause)->0.cdr;
            if body.is_nil() {
                Step::Done(val)
            } else {
                self.progn(body)
            }
        }
    }

    /// `prog1`: the first form is to be evaluated.
    pub open spec fn prog1(self, args: LispObject) -> Step {
        match self.cons(args) {
            Some(cell) => Step::Call(
                Request::Eval { form: cell.car },
                Frame::Prog1 { body: cell.cdr },
            ),
            None => Step::Fail(LispError::WrongType { predicate: QCONSP, value: args }),
        }
    }

    /// `prog2`: the first form is to be evaluated.
    pub open spec fn prog2(self, args: LispObject) -> Step {
        match self.cons(args) {
            Some(cell) => Step::Call(
                Request::Eval { form: cell.car },
                Frame::Prog2 { rest: cell.cdr },
            ),
            None => Step::Fail(LispError::WrongType { predicate: QCONSP, value: args }),
        }
    }
}

/// Evaluates the arguments until one of them yields non-nil, and returns that
/// value. The remaining arguments are not evaluated at all. If all arguments
/// yield nil, returns nil.
/// usage: (or CONDITIONS...)
pub fn or(heap: &Heap, args: LispObject) -> (step: Step)
    ensures
        step == heap@.or_step(args),
{
    match heap.cons_at(args) {
        Some(cell) => Step::Call(Request::Eval { form: cell.car }, Frame::Or { rest: cell.cdr }),
        None => Step::Done(LispObject::Symbol(QNIL)),
    }
}

/// Goes on with `or` once an argument has the value `val`.
pub fn or_resumed(heap: &Heap, rest: LispObject, val: LispObject) -> (step: Step)
    ensures
        step == if val.is_nil() {
            heap@.or_step(rest)
        } else {
            Step::Done(val)
        },
{
    if val.is_nil() {
        or(heap, rest)
    } else {
        Step::Done(val)
    }
}

/// Evaluates the arguments until one of them yields nil, and returns nil. The
/// remaining arguments are not evaluated at all. If no argument yields nil,
/// returns the value of the last one.
/// usage: (and CONDITIONS...)
pub fn and(heap: &Heap, args: LispObject) -> (step: Step)
    ensures
        step == heap@.and_step(args, LispObject::t()),
{
    match heap.cons_at(args) {
        Some(cell) => Step::Call(Request::Eval { form: cell.car }, Frame::And { rest: cell.cdr }),
        None => Step::Done(LispObject::Symbol(QT)),
    }
}

/// Goes on with `and` once an argument has the value `val`.
pub fn and_resumed(heap: &Heap, rest: LispObject, val: LispObject) -> (step: Step)
    ensures
        step == if val.is_nil() {
            Step::Done(LispObject::nil())
        } else {
            heap@.and_step(rest, val)
        },
{
    if val.is_nil() {
        Step::Done(val)
    } else {
        match heap.cons_at(rest) {
            Some(cell) => Step::Call(
                Request::Eval { form: cell.car },
                Frame::And { rest: cell.cdr },
            ),
            None => Step::Done(val),
        }
    }
}

/// If COND yields non-nil, does THEN, else does ELSE... Returns the value of THEN
/// or the value of the last of the ELSE's. THEN must be one expression, but
/// ELSE... can be zero or more expressions. If COND yields nil, and there are no
/// ELSE's, the value is nil.
/// usage: (if COND THEN ELSE...)
pub fn lisp_if(heap: &Heap, args: LispObject) -> (step: Step)
    ensures
        step == heap@.lisp_if(args),
{
    match heap.cons_at(args) {
        Some(cell) => Step::Call(Request::Eval { form: cell.car }, Frame::If { cell: args }),
        None => Step::Fail(LispError::WrongType { predicate: QCONSP, value: args }),
    }
}

/// Goes on with `if` once the condition has the value `cond`.
pub fn if_resumed(heap: &Heap, cell: LispObject, cond: LispObject) -> (step: Step)
    requires
        heap@.cons(cell) is Some,
    ensures
        step == heap@.if_chosen(cell, cond),
{
    let branches = heap.cell(cell).cdr;
    match heap.cons_at(branches) {
        Some(b) => if !cond.is_nil() {
            Step::Call(Request::Eval { form: b.car }, Frame::Return)
        } else {
            progn(heap, b.cdr)
        },
        None => Step::Fail(LispError::WrongType { predicate: QCONSP, value: branches }),
    }
}

/// Tries each clause until one succeeds. Each clause looks like
/// (CONDITION BODY...). CONDITION is evaluated and, if the value is non-nil, this
/// clause succeeds: the expressions in BODY are evaluated and the last one's value
/// is the value of the cond-form. If a clause has one element, as in (CONDITION),
/// the cond-form returns CONDITION's value, if that is non-nil. If no clause
/// succeeds, returns nil.
/// usage: (cond CLAUSES...)
pub fn cond(heap: &Heap, args: LispObject) -> (step: Step)
    ensures
        step == heap@.cond_step(args),
{
    match heap.cons_at(args) {
        Some(cell) => match heap.cons_at(cell.car) {
            Some(clause) => Step::Call(
                Request::Eval { form: clause.car },
                Frame::Cond { clause: cell.car, rest: cell.cdr },
            ),
            None => Step::Fail(LispError::WrongType { predicate: QCONSP, value: cell.car }),
        },
        None => Step::Done(LispObject::Symbol(QNIL)),
    }
}

/// Goes on with `cond` once the condition of `clause` has the value `val`.
pub fn cond_resumed(heap: &Heap, clause: LispObject, rest: LispObject, val: LispObject) -> (step:
    Step)
    requires
        heap@.cons(clause) is Some,
    ensures
        step == heap@.cond_chosen(clause, rest, val),
{
    if val.is_nil() {
        cond(heap, rest)
    } else {
        let body = heap.cell(clause).cdr;
        if body.is_nil() {
            Step::Done(val)
        } else {
            progn(heap, body)
        }
    }
}

/// Goes on with a body at `rest`, after the value `val`.
pub fn progn_next(heap: &Heap, rest: LispObject, val: LispObject, after: After) -> (step: Step)
    ensures
        step == heap@.progn_step(rest, val, after),
{
    match heap.cons_at(rest) {
        Some(cell) => Step::Call(
            Request::Eval { form: cell.car },
            Frame::Progn { rest: cell.cdr, after },
        ),
        None => match after {
            After::Value => Step::Done(val),
            After::Constant { value } => Step::Done(value),
            After::Again { test, body } => Step::Call(
                Request::Eval { form: test },
                Frame::WhileTest { test, body },
            ),
            After::Unbind { count } => Step::Call(
                Request::UnbindTo { count, val },
                Frame::Return,
            ),
        },
    }
}

/// Evaluates the BODY forms sequentially and returns the value of the last one.
/// usage: (progn BODY...)
pub fn progn(heap: &Heap, body: LispObject) -> (step: Step)
    ensures
        step == heap@.progn(body),
{
    progn_next(heap, body, LispObject::Symbol(QNIL), After::Value)
}

/// Evaluates BODY sequentially, discarding its value.
pub fn prog_ignore(heap: &Heap, body: LispObject) -> (step: Step)
    ensures
        step == heap@.prog_ignore(body),
{
    progn_next(
        heap,
        body,
        LispObject::Symbol(QNIL),
        After::Constant { value: LispObject::Symbol(QNIL) },
    )
}

/// Evaluates FIRST and BODY sequentially; returns the value of FIRST. The value
/// of FIRST is saved during the evaluation of the remaining args, whose values are
/// discarded.
/// usage: (prog1 FIRST BODY...)
pub fn prog1(heap: &Heap, args: LispObject) -> (step: Step)
    ensures
        step == heap@.prog1(args),
{
    match heap.cons_at(args) {
        Some(cell) => Step::Call(
            Request::Eval { form: cell.car },
            Frame::Prog1 { body: cell.cdr },
        ),
        None => Step::Fail(LispError::WrongType { predicate: QCONSP, value: args }),
    }
}

/// Evaluates FORM1, FORM2 and BODY sequentially; returns the value of FORM2. The
/// value of FORM2 is saved during the evaluation of the remaining args, whose
/// values are discarded.
/// usage: (prog2 FORM1 FORM2 BODY...)
pub fn prog2(heap: &Heap, args: LispObject) -> (step: Step)
    ensures
        step == heap@.prog2(args),
{
    match heap.cons_at(args) {
        Some(cell) => Step::Call(
            Request::Eval { form: cell.car },
            Frame::Prog2 { rest: cell.cdr },
        ),
        None => Step::Fail(LispError::WrongType { predicate: QCONSP, value: args }),
    }
}

/// If TEST yields non-nil, evaluates BODY... and repeats. The order of execution
/// is thus TEST, BODY, TEST, BODY and so on until TEST returns nil.
/// usage: (while TEST BODY...)
pub fn lisp_while(heap: &Heap, args: LispCons) -> (step: Step)
    requires
        heap@.cons(args.as_lisp_obj()) is Some,
    ensures
        heap@.cons(args.as_lisp_obj()) matches Some(cell) && step == Step::Call(
            Request::Eval { form: cell.car },
            Frame::WhileTest { test: cell.car, body: cell.cdr },
        ),
{
    let cell = heap.cell(args.as_lisp_obj());
    Step::Call(
        Request::Eval { form: cell.car },
        Frame::WhileTest { test: cell.car, body: cell.cdr },
    )
}

/// Goes on with `while` once the test has the value `val`.
pub fn while_resumed(test: LispObject, body: LispObject, val: LispObject) -> (step: Step)
    ensures
        step == if val.is_nil() {
            Step::Done(LispObject::nil())
        } else {
            Step::Call(Request::MaybeQuit, Frame::WhilePolled { test, body })
        },
{
    if val.is_nil() {
        Step::Done(LispObject::Symbol(QNIL))
    } else {
        Step::Call(Request::MaybeQuit, Frame::WhilePolled { test, body })
    }
}

} // verus!

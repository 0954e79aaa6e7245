//! Conditionals, sequences and loops.
use vstd::prelude::*;
use crate::errors::LispError;
use crate::heap::Memory;
use crate::machine::{After, Frame, Request, Step};
use crate::object::{LispObject, QCONSP};

verus! {

/// The error for an object that should be a cons cell.
pub open spec fn no_cell(value: LispObject) -> Step {
    Step::Fail(LispError::WrongType { predicate: QCONSP, value })
}

/// `or` asks for the value of the first argument there is, whatever it is, and keeps the
/// arguments behind it; without one it is nil. A non-nil value ends it; after nil it is
/// `or` of the arguments behind.
pub proof fn law_or_step(m: Memory, args: LispObject, reply: LispObject)
    ensures
        m.cons(args) matches Some(cell) ==> m.or_step(args) == Step::Call(
            Request::Eval { form: cell.car },
            Frame::Or { rest: cell.cdr },
        ),
        m.cons(args) is None ==> m.or_step(args) == Step::Done(LispObject::nil()),
        !reply.is_nil() ==> m.resumed(Frame::Or { rest: args }, reply) == (m, Step::Done(reply)),
        m.resumed(Frame::Or { rest: args }, LispObject::nil()) == (m, m.or_step(args)),
{
}

/// `and` asks for the value of the first argument there is, and keeps the arguments
/// behind it; without one it is t. A value of nil ends it; after another one it asks for
/// the next argument, and has that value if there is none.
pub proof fn law_and_step(m: Memory, args: LispObject, val: LispObject)
    ensures
        m.cons(args) matches Some(cell) ==> m.and_step(args, val) == Step::Call(
            Request::Eval { form: cell.car },
            Frame::And { rest: cell.cdr },
        ),
        m.cons(args) is None ==> m.and_step(args, val) == Step::Done(val),
        m.resumed(Frame::And { rest: args }, LispObject::nil()) == (
            m,
            Step::Done(LispObject::nil()),
        ),
        !val.is_nil() ==> m.resumed(Frame::And { rest: args }, val) == (m, m.and_step(args, val)),
{
}

/// A body asks for the value of its first form, and keeps the forms behind it and what
/// follows the body. Without a form, what follows gets the value: it is the result, it is
/// dropped for another one, it is dropped and the loop goes on, or it is handed over when
/// the bindings are undone.
pub proof fn law_body_step(
    m: Memory,
    rest: LispObject,
    val: LispObject,
    after: After,
    value: LispObject,
    test: LispObject,
    body: LispObject,
    count: i64,
)
    ensures
        m.cons(rest) matches Some(cell) ==> m.progn_step(rest, val, after) == Step::Call(
            Request::Eval { form: cell.car },
            Frame::Progn { rest: cell.cdr, after },
        ),
        m.cons(rest) is None ==> {
            &&& m.progn_step(rest, val, After::Value) == Step::Done(val)
            &&& m.progn_step(rest, val, After::Constant { value }) == Step::Done(value)
            &&& m.progn_step(rest, val, After::Again { test, body }) == Step::Call(
                Request::Eval { form: test },
                Frame::WhileTest { test, body },
            )
            &&& m.progn_step(rest, val, After::Unbind { count }) == Step::Call(
                Request::UnbindTo { count, val },
                Frame::Return,
            )
        },
        m.resumed(Frame::Progn { rest, after }, val) == (m, m.progn_step(rest, val, after)),
        m.progn(rest) == m.progn_step(rest, LispObject::nil(), After::Value),
        m.prog_ignore(rest) == m.progn_step(
            rest,
            LispObject::nil(),
            After::Constant { value: LispObject::nil() },
        ),
{
}

/// `if` asks for the value of its condition. After that it asks for the value of the
/// second form if the condition is non-nil, and goes on with the forms behind that if it
/// is nil. Without a cell for the condition, or for the second form, it is an error.
pub proof fn law_if_step(m: Memory, args: LispObject, cond: LispObject)
    ensures
        m.cons(args) is None ==> m.lisp_if(args) == no_cell(args),
        m.cons(args) matches Some(cell) ==> m.lisp_if(args) == Step::Call(
            Request::Eval { form: cell.car },
            Frame::If { cell: args },
        ),
        m.cons(args) matches Some(cell) ==> m.resumed(Frame::If { cell: args }, cond) == (
            m,
            match m.cons(cell.cdr) {
                None => no_cell(cell.cdr),
                Some(branches) => if cond == LispObject::nil() {
                    m.progn(branches.cdr)
                } else {
                    Step::Call(Request::Eval { form: branches.car }, Frame::Return)
                },
            },
        ),
{
}

/// `cond` asks for the condition of its first clause, and keeps the clause and the
/// clauses behind it; without a clause it is nil, and a clause that is no cell is an
/// error. A condition of nil leads to the clauses behind; any other leads to the body of
/// the clause, and is the value if the clause has none.
pub proof fn law_cond_step(m: Memory, args: LispObject, clause: LispObject, val: LispObject)
    ensures
        m.cons(args) is None ==> m.cond_step(args) == Step::Done(LispObject::nil()),
        m.cons(args) matches Some(cell) ==> m.cond_step(args) == match m.cons(cell.car) {
            None => no_cell(cell.car),
            Some(parts) => Step::Call(
                Request::Eval { form: parts.car },
                Frame::Cond { clause: cell.car, rest: cell.cdr },
            ),
        },
        m.resumed(Frame::Cond { clause, rest: args }, LispObject::nil()) == (m, m.cond_step(args)),
        m.cons(clause) matches Some(parts) ==> !val.is_nil() ==> m.resumed(
            Frame::Cond { clause, rest: args },
            val,
        ) == (
            m,
            if parts.cdr == LispObject::nil() {
                Step::Done(val)
            } else {
                m.progn(parts.cdr)
            },
        ),
{
}

/// `prog1` asks for the value of its first form, and has that value once the other forms
/// are evaluated. `prog2` asks for the value of its first form, and goes on as `prog1` of
/// the others. Without a cell for the first form both are an error.
pub proof fn law_prog_step(m: Memory, args: LispObject, val: LispObject)
    ensures
        m.cons(args) is None ==> m.prog1(args) == no_cell(args) && m.prog2(args) == no_cell(args),
        m.cons(args) matches Some(cell) ==> m.prog1(args) == Step::Call(
            Request::Eval { form: cell.car },
            Frame::Prog1 { body: cell.cdr },
        ) && m.prog2(args) == Step::Call(
            Request::Eval { form: cell.car },
            Frame::Prog2 { rest: cell.cdr },
        ),
        m.resumed(Frame::Prog1 { body: args }, val) == (
            m,
            m.progn_step(args, LispObject::nil(), After::Constant { value: val }),
        ),
        m.resumed(Frame::Prog2 { rest: args }, val) == (m, m.prog1(args)),
{
}

/// `while` ends with nil when its test is nil; otherwise the user may quit, and the body
/// is evaluated, after which the test comes again.
pub proof fn law_while_step(m: Memory, test: LispObject, body: LispObject, val: LispObject)
    ensures
        m.resumed(Frame::WhileTest { test, body }, val) == (
            m,
            if val == LispObject::nil() {
                Step::Done(LispObject::nil())
            } else {
                Step::Call(Request::MaybeQuit, Frame::WhilePolled { test, body })
            },
        ),
        m.resumed(Frame::WhilePolled { test, body }, val) == (
            m,
            m.progn_step(body, LispObject::nil(), After::Again { test, body }),
        ),
{
}

/// What is asked for last is what is returned, or stands for a value already known.
pub proof fn law_return_step(m: Memory, reply: LispObject, value: LispObject)
    ensures
        m.resumed(Frame::Return, reply) == (m, Step::Done(reply)),
        m.resumed(Frame::Answer { value }, reply) == (m, Step::Done(value)),
{
}

} // verus!

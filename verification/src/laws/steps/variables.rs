//! Setting and defining variables.
use vstd::prelude::*;
use crate::errors::LispError;
use crate::heap::{Cons, Memory, SymbolCell};
use crate::machine::{Frame, Request, Step};
use crate::object::{
    LispObject, QLISTP, QRISKY_LOCAL_VARIABLE, QSETQ, QSYMBOLP, QVARIABLE_DOCUMENTATION,
};
use crate::trace::Answer;

verus! {

/// The error for an object that should be a list.
pub open spec fn no_list(value: LispObject) -> Step {
    Step::Fail(LispError::WrongType { predicate: QLISTP, value })
}

/// The number `n` counted on by `k`; after the largest number comes 0.
pub open spec fn counted_on(n: usize, k: int) -> usize {
    if n + k <= usize::MAX {
        (n + k) as usize
    } else {
        (n + k - usize::MAX - 1) as usize
    }
}

/// `setq` at two more arguments asks for the value of the second one, whatever it is, and
/// keeps the first one as the variable and the arguments behind both. At no argument it
/// has the last value; at one argument it complains of the number of arguments. What is
/// no list, or goes round in a circle, is an error that tells the whole list.
pub proof fn law_setq_step(
    m: Memory,
    list: LispObject,
    rest: LispObject,
    val: LispObject,
    nargs: usize,
)
    ensures
        m.setq_step(list, LispObject::nil(), val, nargs) == Step::Done(val),
        m.cons(rest) is None && !rest.is_nil() ==> m.setq_step(list, rest, val, nargs) == no_list(
            list,
        ),
        m.cons(rest) is Some && m.list_end(rest) is None ==> m.setq_step(list, rest, val, nargs)
            == Step::Fail(LispError::CircularList { list }),
        m.cons(rest) matches Some(variable) ==> m.list_end(rest) is Some ==> m.setq_step(
            list,
            rest,
            val,
            nargs,
        ) == match m.cons(variable.cdr) {
            Some(value) => Step::Call(
                Request::Eval { form: value.car },
                Frame::SetqValue { list, rest: value.cdr, sym: variable.car, nargs },
            ),
            None => if variable.cdr == LispObject::nil() {
                Step::Fail(
                    LispError::WrongNumberOfArguments {
                        function: QSETQ,
                        count: counted_on(nargs, 1),
                    },
                )
            } else {
                no_list(list)
            },
        },
{
    if let Some(variable) = m.cons(rest) {
        crate::lists::lemma_rest_end(m, rest, variable.car, variable.cdr);
    }
}

/// `setq` with a value: a symbol that the lexical environment binds gets it in the cell
/// that binds it, and in no other cell, and the next variable comes at once; any other
/// variable is set by a request, with that value, and nothing changes on the heap. A
/// lexical environment that is no list is an error.
pub proof fn law_setq_value(
    m: Memory,
    list: LispObject,
    rest: LispObject,
    sym: LispObject,
    nargs: usize,
    val: LispObject,
)
    ensures
        ({
            let frame = Frame::SetqValue { list, rest, sym, nargs };
            let asked = Step::Call(
                Request::SetValue { sym, val },
                Frame::SetqStored { list, rest, val, nargs: counted_on(nargs, 2) },
            );
            &&& m.lexenv.is_nil() || !(sym is Symbol) ==> m.resumed(frame, val) == (m, asked)
            &&& !m.lexenv.is_nil() && sym is Symbol ==> match m.assq(sym, m.lexenv) {
                Err(error) => m.resumed(frame, val) == (m, Step::Fail(error)),
                Ok(binding) => match m.cons(binding) {
                    None => m.resumed(frame, val) == (m, asked),
                    Some(pair) => {
                        let (n, step) = m.resumed(frame, val);
                        &&& binding matches LispObject::Cons(id) && n.conses == m.conses.update(
                            id as int,
                            Cons { car: pair.car, cdr: val },
                        )
                        &&& n.symbols == m.symbols && n.strings == m.strings
                        &&& n.vectorlikes == m.vectorlikes && n.lexenv == m.lexenv
                        &&& n.purify_flag == m.purify_flag
                        &&& step == n.setq_step(list, rest, val, counted_on(nargs, 2))
                    },
                },
            }
            &&& m.resumed(Frame::SetqStored { list, rest, val, nargs }, sym) == (
                m,
                m.setq_step(list, rest, val, nargs),
            )
        }),
{
}

/// `defconst` takes the first argument for the symbol, asks for the value of the second
/// one, nil if there is none, and keeps the third one as the documentation, nil if there
/// is none. A fourth one, or arguments that are no list, are an error before anything is
/// evaluated.
pub proof fn law_defconst_begins(m: Memory, args: LispObject)
    ensures
        m.cons(args) is None ==> m.defconst(args) == crate::laws::steps::control::no_cell(args),
        m.cons(args) matches Some(cell) ==> m.defconst(args) == match m.cons(cell.cdr) {
            None => if cell.cdr == LispObject::nil() {
                Step::Call(
                    Request::Eval { form: LispObject::nil() },
                    Frame::DefconstValue { sym: cell.car, docstring: LispObject::nil() },
                )
            } else {
                no_list(cell.cdr)
            },
            Some(value) => match m.cons(value.cdr) {
                None => if value.cdr == LispObject::nil() {
                    Step::Call(
                        Request::Eval { form: value.car },
                        Frame::DefconstValue { sym: cell.car, docstring: LispObject::nil() },
                    )
                } else {
                    no_list(value.cdr)
                },
                Some(doc) => if doc.cdr == LispObject::nil() {
                    Step::Call(
                        Request::Eval { form: value.car },
                        Frame::DefconstValue { sym: cell.car, docstring: doc.car },
                    )
                } else {
                    Step::Fail(LispError::TooManyArguments)
                },
            },
        },
{
}

/// `defconst` makes its value, or the pure copy of it while the purify flag is on, the
/// default value of the symbol.
pub proof fn law_defconst_value(
    m: Memory,
    sym: LispObject,
    docstring: LispObject,
    val: LispObject,
)
    ensures
        ({
            let stored = Step::Call(
                Request::SetDefault { sym, val },
                Frame::DefconstStored { sym, docstring },
            );
            &&& m.purify_flag.is_nil() ==> m.resumed(Frame::DefconstValue { sym, docstring }, val)
                == (m, stored)
            &&& !m.purify_flag.is_nil() ==> m.resumed(
                Frame::DefconstValue { sym, docstring },
                val,
            ) == (
                m,
                Step::Call(Request::Purecopy { obj: val }, Frame::DefconstPure { sym, docstring }),
            )
            &&& m.resumed(Frame::DefconstPure { sym, docstring }, val) == (m, stored)
        }),
{
}

/// Once the default value is set, `defconst` marks the symbol as special, whatever its
/// documentation is, and changes nothing else on the heap. What is no symbol is an error.
/// The documentation is recorded if there is any, as a pure copy while the purify flag is
/// on; the variable is marked as risky; the load history is told; the symbol is returned.
pub proof fn law_defconst_stored(
    m: Memory,
    sym: LispObject,
    docstring: LispObject,
    reply: LispObject,
    doc: LispObject,
)
    ensures
        ({
            let (n, step) = m.resumed(Frame::DefconstStored { sym, docstring }, reply);
            let risky = Step::Call(
                Request::Put {
                    sym,
                    prop: LispObject::Symbol(QRISKY_LOCAL_VARIABLE),
                    val: LispObject::t(),
                },
                Frame::DefconstHistory { sym },
            );
            &&& n.conses == m.conses && n.strings == m.strings && n.vectorlikes == m.vectorlikes
            &&& n.lexenv == m.lexenv && n.purify_flag == m.purify_flag
            &&& match sym {
                LispObject::Symbol(id) if id < m.symbols.len() => n.symbols == m.symbols.update(
                    id as int,
                    SymbolCell {
                        function: m.symbols[id as int].function,
                        declared_special: true,
                    },
                ),
                _ => n.symbols == m.symbols,
            }
            &&& !(sym is Symbol) ==> step == Step::Fail(
                LispError::WrongType { predicate: QSYMBOLP, value: sym },
            )
            &&& sym is Symbol ==> step == if docstring == LispObject::nil() {
                risky
            } else if m.purify_flag == LispObject::nil() {
                recorded(sym, docstring)
            } else {
                Step::Call(Request::Purecopy { obj: docstring }, Frame::DefconstDoc { sym })
            }
            &&& m.resumed(Frame::DefconstDoc { sym }, doc) == (m, recorded(sym, doc))
            &&& m.resumed(Frame::DefconstRisky { sym }, reply) == (m, risky)
            &&& m.resumed(Frame::DefconstHistory { sym }, reply) == (
                m,
                Step::Call(Request::LoadhistAttach { sym }, Frame::Answer { value: sym }),
            )
        }),
{
}

/// The request that records the documentation of a variable.
pub open spec fn recorded(sym: LispObject, doc: LispObject) -> Step {
    Step::Call(
        Request::Put { sym, prop: LispObject::Symbol(QVARIABLE_DOCUMENTATION), val: doc },
        Frame::DefconstRisky { sym },
    )
}

/// Over a whole run of `defconst`: when the request to set the default value is answered,
/// the symbol is special on the heap that is left, with documentation and without it, and
/// no other symbol has changed.
pub proof fn law_defconst_marks(
    m: Memory,
    args: LispObject,
    answers: Seq<Answer>,
    id: usize,
    other: usize,
)
    requires
        answers.len() > 0,
        m.defconst(args).after(answers.drop_last()) matches Step::Call(
            Request::SetDefault { sym, .. },
            _,
        ) && sym == LispObject::Symbol(id),
        id < answers.last().memory.symbols.len(),
    ensures
        ({
            let n = m.defconst(args).left(m, answers);
            &&& n.special(id)
            &&& other != id ==> n.special(other) == answers.last().memory.special(other)
            &&& n.function(other) == answers.last().memory.function(other)
        }),
{
    lemma_defconst_frame(m, args, answers.drop_last());
}

/// The frame in which `defconst` waits for the default value to be set.
proof fn lemma_defconst_frame(m: Memory, args: LispObject, answers: Seq<Answer>)
    ensures
        match m.defconst(args).after(answers) {
            Step::Call(Request::Eval { .. }, frame) => frame is DefconstValue,
            Step::Call(Request::Purecopy { .. }, frame) => frame is DefconstPure
                || frame is DefconstDoc,
            Step::Call(Request::SetDefault { sym, .. }, frame) => frame
                matches Frame::DefconstStored { sym: s, .. } && s == sym,
            Step::Call(Request::Put { .. }, frame) => frame is DefconstRisky
                || frame is DefconstHistory,
            Step::Call(Request::LoadhistAttach { .. }, frame) => frame is Answer,
            Step::Call(_, _) => false,
            _ => true,
        },
    decreases answers.len(),
{
    if answers.len() > 0 {
        lemma_defconst_frame(m, args, answers.drop_last());
    }
}

} // verus!

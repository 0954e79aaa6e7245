//! Quoting functions, and expanding macros.
use vstd::prelude::*;
use crate::errors::LispError;
use crate::heap::{Cons, Memory};
use crate::machine::{Frame, Request, Step};
use crate::object::{
    LispObject, QCDOCUMENTATION, QCLOSURE, QFUNCTION, QLAMBDA, QLISTP, QMACRO, QNIL, QSTRINGP,
};
use crate::trace::Answer;

verus! {

/// `function` without an argument is an error, and so is `function` with more than one;
/// that error tells how many there are, if they are a list.
pub proof fn law_function_refuses(
    m: Memory,
    args: LispObject,
    spine: Seq<LispObject>,
    items: Seq<LispObject>,
    back: int,
)
    ensures
        m.cons(args) is None ==> m.quote_function(args) == (
            m,
            crate::laws::steps::control::no_cell(args),
        ),
        m.holds(spine, items) && spine[0] == args && items.len() >= 1 && !(items.len() == 1
            && spine.last().is_nil()) ==> m.quote_function(args) == (
            m,
            if spine.last() == LispObject::nil() {
                Step::Fail(
                    LispError::WrongNumberOfArguments {
                        function: QFUNCTION,
                        count: items.len() as usize,
                    },
                )
            } else {
                Step::Fail(LispError::WrongType { predicate: QLISTP, value: args })
            },
        ),
        m.circles(spine, items, back) && spine[0] == args ==> m.quote_function(args) == (
            m,
            Step::Fail(LispError::CircularList { list: args }),
        ),
{
    if m.holds(spine, items) && spine[0] == args && items.len() >= 1 {
        crate::laws::lists::law_chain(m, spine, items);
        assert(m.cons(spine[0]) is Some);
        if items.len() > 1 {
            assert(m.cons(spine[1]) is Some);
        }
    }
    if m.circles(spine, items, back) && spine[0] == args {
        crate::laws::lists::law_circle(m, spine, items, back);
        assert(m.cons(spine[0]) is Some);
        assert(m.cons(spine[back]) is Some);
        if spine.len() > 1 {
            assert(m.cons(spine[1]) is Some);
        }
    }
}

/// `function` of one argument returns it, unless it is a lambda expression in a lexical
/// environment. That becomes a closure in two new cells, with the environment and with
/// what is behind `lambda` in it; nothing else changes. If the first form of its body
/// begins with :documentation, the form behind that is asked for first.
pub proof fn law_function_step(m: Memory, args: LispObject, quoted: LispObject)
    requires
        m.cons(args) == Some(Cons { car: quoted, cdr: LispObject::nil() }),
        m.conses.len() + 2 <= usize::MAX,
    ensures
        m.lexenv.is_nil() || m.cons(quoted) is None ==> m.quote_function(args) == (
            m,
            Step::Done(quoted),
        ),
        m.cons(quoted) matches Some(cell) ==> cell.car != LispObject::Symbol(QLAMBDA)
            ==> m.quote_function(args) == (m, Step::Done(quoted)),
        m.cons(quoted) matches Some(cell) ==> !m.lexenv.is_nil() && cell.car == LispObject::Symbol(
            QLAMBDA,
        ) ==> match m.documented_by(cell.cdr) {
            Some(doc) => m.quote_function(args) == (
                m,
                match m.cons(doc) {
                    Some(parts) => Step::Call(
                        Request::Eval { form: parts.car },
                        Frame::FunctionDoc { lambda: cell.cdr },
                    ),
                    None => if doc == LispObject::nil() {
                        Step::Call(
                            Request::Eval { form: LispObject::nil() },
                            Frame::FunctionDoc { lambda: cell.cdr },
                        )
                    } else {
                        crate::laws::steps::variables::no_list(doc)
                    },
                },
            ),
            None => ({
                let (n, step) = m.quote_function(args);
                &&& n == m.closed_over(cell.cdr)
                &&& step == Step::Done(LispObject::Cons((m.conses.len() + 1) as usize))
            }),
        },
{
    reveal_with_fuel(Memory::tail, 2);
    if let Some(cell) = m.cons(quoted) {
        assert(m.closure(cell.cdr).0 =~= m.closed_over(cell.cdr));
    }
}

impl Memory {
    /// What is behind :documentation in the first form of the body of the lambda
    /// expression (lambda . `lambda`), if that form begins so.
    pub open spec fn documented_by(self, lambda: LispObject) -> Option<LispObject> {
        if let Some(arguments) = self.cons(lambda) {
            if let Some(body) = self.cons(arguments.cdr) {
                if let Some(first) = self.cons(body.car) {
                    if first.car == LispObject::Symbol(QCDOCUMENTATION) {
                        Some(first.cdr)
                    } else {
                        None
                    }
                } else {
                    None
                }
            } else {
                None
            }
        } else {
            None
        }
    }

    /// The memory with two more cells, the second of which is (closure ENV . `lambda`).
    pub open spec fn closed_over(self, lambda: LispObject) -> Memory {
        let captured = LispObject::Cons(self.conses.len() as usize);
        Memory {
            conses: self.conses + seq![
                Cons { car: self.lexenv, cdr: lambda },
                Cons { car: LispObject::Symbol(QCLOSURE), cdr: captured },
            ],
            ..self
        }
    }
}

/// With a string for the documentation, `function` makes a closure of the arguments of the
/// lambda expression, the string, and the forms of the body behind the first one, in four
/// new cells; nothing else changes. Anything else is refused.
pub proof fn law_function_documents(
    m: Memory,
    lambda: LispObject,
    arguments: Cons,
    body: Cons,
    docstring: LispObject,
)
    requires
        docstring is Str ==> m.cons(lambda) == Some(arguments) && m.cons(arguments.cdr) == Some(
            body,
        ) && m.conses.len() + 4 <= usize::MAX,
    ensures
        !(docstring is Str) ==> m.resumed(Frame::FunctionDoc { lambda }, docstring) == (
            m,
            Step::Fail(LispError::WrongType { predicate: QSTRINGP, value: docstring }),
        ),
        docstring is Str ==> ({
            let (n, step) = m.resumed(Frame::FunctionDoc { lambda }, docstring);
            let len = m.conses.len();
            &&& n.conses == m.conses + seq![
                Cons { car: docstring, cdr: body.cdr },
                Cons { car: arguments.car, cdr: LispObject::Cons(len as usize) },
                Cons { car: m.lexenv, cdr: LispObject::Cons((len + 1) as usize) },
                Cons {
                    car: LispObject::Symbol(QCLOSURE),
                    cdr: LispObject::Cons((len + 2) as usize),
                },
            ]
            &&& n.symbols == m.symbols && n.strings == m.strings && n.vectorlikes == m.vectorlikes
            &&& n.lexenv == m.lexenv && n.purify_flag == m.purify_flag
            &&& step == Step::Done(LispObject::Cons((len + 3) as usize))
        }),
{
}

/// A function is called with the elements of a list: without arguments if the list is nil,
/// and otherwise with the list itself.
pub proof fn law_application(func: LispObject, arg: LispObject)
    ensures
        Memory::application(func, LispObject::nil()) == (Request::Funcall { func }),
        !arg.is_nil() ==> Memory::application(func, arg) == (Request::Apply { func, arg }),
{
}

/// `macroexpand` of a call lets the user quit and keeps the head, if that is a symbol, and
/// the arguments, in every environment; it asks for the definition of any other head to be
/// loaded. What is no call is returned.
pub proof fn law_macroexpand_step(m: Memory, form: LispObject, environment: LispObject)
    ensures
        m.cons(form) is None ==> m.macroexpand(form, environment) == Step::Done(form),
        m.cons(form) matches Some(cell) ==> m.macroexpand(form, environment) == match cell.car {
            LispObject::Symbol(symbol) => Step::Call(
                Request::MaybeQuit,
                Frame::MacroPolled { form, body: cell.cdr, environment, symbol },
            ),
            head => Step::Call(
                Request::AutoloadDoLoad {
                    def: head,
                    name: head,
                    macro_only: LispObject::Symbol(QMACRO),
                },
                Frame::MacroLoaded { form, body: cell.cdr, environment },
            ),
        },
{
}

/// `macroexpand` at a symbol: a definition in the environment is called with the
/// arguments, unless it is nil, which ends the expansion; without one, a symbol for the
/// function definition is looked up in its turn, and any other definition is asked to be
/// loaded. A definition that begins with `macro' is called with the arguments; any other
/// ends the expansion. An environment that is no list is an error.
pub proof fn law_macro_step(
    m: Memory,
    form: LispObject,
    body: LispObject,
    environment: LispObject,
    symbol: usize,
    reply: LispObject,
)
    ensures
        ({
            let frame = Frame::MacroPolled { form, body, environment, symbol };
            let expanded = Frame::MacroExpanded { form, environment };
            match m.assq(LispObject::Symbol(symbol), environment) {
                Err(error) => m.resumed(frame, reply) == (m, Step::Fail(error)),
                Ok(entry) => m.resumed(frame, reply) == (
                    m,
                    match m.cons(entry) {
                        Some(definition) => if definition.cdr == LispObject::nil() {
                            Step::Done(form)
                        } else {
                            Step::Call(Memory::application(definition.cdr, body), expanded)
                        },
                        None => match m.function(symbol) {
                            LispObject::Symbol(next) if next != QNIL => Step::Call(
                                Request::MaybeQuit,
                                Frame::MacroPolled { form, body, environment, symbol: next },
                            ),
                            def => Step::Call(
                                Request::AutoloadDoLoad {
                                    def,
                                    name: LispObject::Symbol(symbol),
                                    macro_only: LispObject::Symbol(QMACRO),
                                },
                                Frame::MacroLoaded { form, body, environment },
                            ),
                        },
                    },
                ),
            }
        }),
        ({
            let frame = Frame::MacroLoaded { form, body, environment };
            let expanded = Frame::MacroExpanded { form, environment };
            &&& m.cons(reply) matches Some(def) ==> def.car == LispObject::Symbol(QMACRO)
                ==> m.resumed(frame, reply) == (
                m,
                Step::Call(Memory::application(def.cdr, body), expanded),
            )
            &&& m.cons(reply) matches Some(def) ==> def.car != LispObject::Symbol(QMACRO)
                ==> m.resumed(frame, reply) == (m, Step::Done(form))
            &&& m.cons(reply) is None ==> m.resumed(frame, reply) == (m, Step::Done(form))
        }),
        ({
            let frame = Frame::MacroExpanded { form, environment };
            &&& m.resumed(frame, form) == (m, Step::Done(form))
            &&& reply != form ==> m.resumed(frame, reply) == (m, m.macroexpand(reply, environment))
        }),
{
}

/// The memory in which the form that `macroexpand`, begun in `m` with `start`, considers
/// after the `answers` came to be considered.
pub open spec fn considered_in(m: Memory, start: Step, answers: Seq<Answer>) -> Memory
    decreases answers.len(),
{
    if answers.len() == 0 {
        m
    } else {
        match start.after(answers.drop_last()) {
            Step::Call(_, Frame::MacroExpanded { form, .. }) => if answers.last().reply == form {
                considered_in(m, start, answers.drop_last())
            } else {
                answers.last().memory
            },
            _ => considered_in(m, start, answers.drop_last()),
        }
    }
}

/// Over a whole run of `macroexpand`, whatever is answered and whatever the environment
/// is, every expander is called with the arguments of the form that is considered: with
/// what its cell had behind the head when it came to be considered.
pub proof fn law_macro_arguments(
    m: Memory,
    form: LispObject,
    environment: LispObject,
    answers: Seq<Answer>,
)
    ensures
        ({
            let start = m.macroexpand(form, environment);
            let current = crate::laws::functions::considered(start, form, answers);
            let call = considered_in(m, start, answers).cons(current);
            match start.after(answers) {
                Step::Call(request, Frame::MacroExpanded { .. }) => call matches Some(cell)
                    && match request {
                    Request::Funcall { .. } => cell.cdr.is_nil(),
                    Request::Apply { arg, .. } => arg == cell.cdr && !arg.is_nil(),
                    _ => false,
                },
                Step::Call(request, Frame::MacroPolled { body, .. }) => call matches Some(cell)
                    && body == cell.cdr && request == Request::MaybeQuit,
                Step::Call(request, Frame::MacroLoaded { body, .. }) => call matches Some(cell)
                    && body == cell.cdr && request is AutoloadDoLoad,
                Step::Call(_, _) => false,
                _ => true,
            }
        }),
    decreases answers.len(),
{
    if answers.len() > 0 {
        law_macro_arguments(m, form, environment, answers.drop_last());
        crate::laws::functions::law_macroexpand(m, form, environment, answers.drop_last());
    }
}

} // verus!

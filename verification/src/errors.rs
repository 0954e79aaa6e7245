//! The errors that the primitives signal.
use vstd::prelude::*;
use crate::heap::{Heap, Memory};
use crate::lists::genuine_list;
use crate::object::{
    LispObject, QCIRCULAR_LIST, QERROR, QNIL, QWRONG_NUMBER_OF_ARGUMENTS, QWRONG_TYPE_ARGUMENT,
};

verus! {

/// Why a primitive gives up.
#[derive(Clone, Copy, Debug, PartialEq, Eq, Structural)]
pub enum LispError {
    /// `value` is not of the type that the symbol `predicate` tests for.
    WrongType { predicate: usize, value: LispObject },
    /// `function`, a symbol, was given `count` arguments.
    WrongNumberOfArguments { function: usize, count: usize },
    /// `list` has no end.
    CircularList { list: LispObject },
    /// A definition has more parts than it may have.
    TooManyArguments,
    /// `binding`, an element of a `let' variable list, has several value forms.
    LetBinding { binding: LispObject },
}

/// An error as Lisp sees it: the error symbol, and the list of its data.
#[derive(Clone, Copy, Debug, PartialEq, Eq, Structural)]
pub struct Signal {
    pub condition: LispObject,
    pub data: LispObject,
}

impl Memory {
    /// The memory with the list (`a`), and that list.
    pub open spec fn list1(self, a: LispObject) -> (Memory, LispObject) {
        self.consed(a, LispObject::nil())
    }

    /// The memory with the list (`a` `b`), and that list.
    pub open spec fn list2(self, a: LispObject, b: LispObject) -> (Memory, LispObject) {
        let (m, tail) = self.list1(b);
        m.consed(a, tail)
    }

    /// The error `error` with the text `msg`, and `arg` for the rest of its data.
    /// An `arg` that is not a genuine list is made a list of one element.
    pub open spec fn error_signal(self, msg: Seq<char>, arg: LispObject) -> (Memory, Signal) {
        let (m1, rest) = if self.genuine_list(arg) {
            (self, arg)
        } else {
            self.list1(arg)
        };
        let (m2, text) = m1.with_string(msg);
        let (m3, data) = m2.consed(text, rest);
        (m3, Signal { condition: LispObject::Symbol(QERROR), data })
    }

    /// The error symbol and the data that stand for `error`.
    pub open spec fn signal(self, error: LispError) -> (Memory, Signal) {
        match error {
            LispError::WrongType { predicate, value } => {
                let (m, data) = self.list2(LispObject::Symbol(predicate), value);
                (m, Signal { condition: LispObject::Symbol(QWRONG_TYPE_ARGUMENT), data })
            },
            LispError::WrongNumberOfArguments { function, count } => {
                let (m, data) = self.list2(
                    LispObject::Symbol(function),
                    LispObject::Fixnum(count as i64),
                );
                (m, Signal { condition: LispObject::Symbol(QWRONG_NUMBER_OF_ARGUMENTS), data })
            },
            LispError::CircularList { list } => {
                let (m, data) = self.list1(list);
                (m, Signal { condition: LispObject::Symbol(QCIRCULAR_LIST), data })
            },
            LispError::TooManyArguments => self.error_signal(
                "Too many arguments"@,
                LispObject::nil(),
            ),
            LispError::LetBinding { binding } => self.error_signal(
                "`let' bindings can have only one value-form"@,
                binding,
            ),
        }
    }
}

/// Signals `error' with message MSG, and additional arg ARG. If ARG is not a
/// genuine list, makes it a one-element list.
pub fn signal_error(heap: &mut Heap, msg: &str, arg: LispObject) -> (signal: Signal)
    ensures
        (final(heap)@, signal) == old(heap)@.error_signal(msg@, arg),
{
    let rest = if genuine_list(heap, arg) {
        arg
    } else {
        heap.cons(arg, LispObject::Symbol(QNIL))
    };
    let text = heap.make_string(msg);
    let data = heap.cons(text, rest);
    Signal { condition: LispObject::Symbol(QERROR), data }
}

/// Puts an error in the form in which Lisp programs handle it.
pub fn signal(heap: &mut Heap, error: LispError) -> (signal: Signal)
    ensures
        (final(heap)@, signal) == old(heap)@.signal(error),
{
    let nil = LispObject::Symbol(QNIL);
    match error {
        LispError::WrongType { predicate, value } => {
            let tail = heap.cons(value, nil);
            let data = heap.cons(LispObject::Symbol(predicate), tail);
            Signal { condition: LispObject::Symbol(QWRONG_TYPE_ARGUMENT), data }
        },
        LispError::WrongNumberOfArguments { function, count } => {
            let tail = heap.cons(LispObject::Fixnum(count as i64), nil);
            let data = heap.cons(LispObject::Symbol(function), tail);
            Signal { condition: LispObject::Symbol(QWRONG_NUMBER_OF_ARGUMENTS), data }
        },
        LispError::CircularList { list } => {
            let data = heap.cons(list, nil);
            Signal { condition: LispObject::Symbol(QCIRCULAR_LIST), data }
        },
        LispError::TooManyArguments => signal_error(heap, "Too many arguments", nil),
        LispError::LetBinding { binding } => signal_error(
            heap,
            "`let' bindings can have only one value-form",
            binding,
        ),
    }
}

} // verus!

//! What an error carries.
use vstd::prelude::*;
use crate::errors::LispError;
use crate::heap::{Cons, Memory};
use crate::object::{
    LispObject, QCIRCULAR_LIST, QERROR, QWRONG_NUMBER_OF_ARGUMENTS, QWRONG_TYPE_ARGUMENT,
};

verus! {

/// The data of an error with a message is always a list: the message, and after it
/// the elements of ARG if that is a list, and ARG itself if it is not.
pub proof fn law_signal_error(m: Memory, msg: Seq<char>, arg: LispObject)
    requires
        m.well_formed(),
        m.has(arg),
        m.conses.len() + 2 <= usize::MAX,
        m.strings.len() < usize::MAX,
    ensures
        ({
            let (n, signal) = m.error_signal(msg, arg);
            &&& signal.condition == LispObject::Symbol(QERROR)
            &&& n.genuine_list(signal.data)
            &&& n.cons(signal.data) matches Some(cell)
            &&& cell.car matches LispObject::Str(id)
            &&& id < n.strings.len()
            &&& n.strings[id as int] == msg
            &&& if m.genuine_list(arg) {
                cell.cdr == arg
            } else {
                n.cons(cell.cdr) == Some(Cons { car: arg, cdr: LispObject::nil() })
            }
        }),
{
    reveal_with_fuel(Memory::tail, 2);
    let (n, signal) = m.error_signal(msg, arg);
    let data = signal.data;
    if m.genuine_list(arg) {
        let k = choose|k: nat| m.tail(arg, k) == Some(LispObject::nil());
        assert(n.extends(m));
        crate::laws::memory::lemma_extended_tail(n, m, arg, k);
        crate::lists::lemma_tail_of_tail(n, data, 1, k);
        assert(n.tail(data, 1 + k) == Some(LispObject::nil()));
    } else {
        let rest = n.cons(data)->0.cdr;
        assert(n.cons(rest) == Some(Cons { car: arg, cdr: LispObject::nil() }));
        assert(n.tail(data, 1) == Some(rest));
        assert(n.tail(data, 2) == Some(LispObject::nil()));
    }
}

/// The data of every error is a list.
pub proof fn law_signal(m: Memory, error: LispError)
    requires
        m.well_formed(),
        error.within(m),
        m.conses.len() + 2 <= usize::MAX,
        m.strings.len() < usize::MAX,
    ensures
        m.signal(error).0.genuine_list(m.signal(error).1.data),
{
    reveal_with_fuel(Memory::tail, 2);
    crate::laws::memory::lemma_roots(m);
    let (n, signal) = m.signal(error);
    match error {
        LispError::TooManyArguments => {
            law_signal_error(m, "Too many arguments"@, LispObject::nil());
        },
        LispError::LetBinding { binding } => {
            law_signal_error(m, "`let' bindings can have only one value-form"@, binding);
        },
        LispError::CircularList { list } => {
            assert(n.tail(signal.data, 1) == Some(LispObject::nil()));
        },
        _ => {
            let rest = n.cons(signal.data)->0.cdr;
            assert(n.tail(signal.data, 1) == Some(rest));
            assert(n.tail(signal.data, 2) == Some(LispObject::nil()));
        },
    }
}

/// Each error has its own condition, and its data tell what was wrong: the predicate and
/// the object of a wrong type, the function and the number of its arguments, the list that
/// goes round in a circle, or a text and the element of the variable list that it is
/// about. To put an error in that form adds to the heap and changes nothing on it.
pub proof fn law_signal_data(m: Memory, error: LispError)
    requires
        m.conses.len() + 2 <= usize::MAX,
        m.strings.len() < usize::MAX,
    ensures
        ({
            let (n, signal) = m.signal(error);
            &&& n.extends(m) && n.symbols == m.symbols && n.vectorlikes == m.vectorlikes
            &&& n.lexenv == m.lexenv && n.purify_flag == m.purify_flag
            &&& match error {
                LispError::WrongType { predicate, value } => n.is_list2(
                    signal.data,
                    LispObject::Symbol(predicate),
                    value,
                ) && signal.condition == LispObject::Symbol(QWRONG_TYPE_ARGUMENT),
                LispError::WrongNumberOfArguments { function, count } => n.is_list2(
                    signal.data,
                    LispObject::Symbol(function),
                    LispObject::Fixnum(count as i64),
                ) && signal.condition == LispObject::Symbol(QWRONG_NUMBER_OF_ARGUMENTS),
                LispError::CircularList { list } => n.cons(signal.data) == Some(
                    Cons { car: list, cdr: LispObject::nil() },
                ) && signal.condition == LispObject::Symbol(QCIRCULAR_LIST),
                LispError::TooManyArguments => n.is_message(
                    signal.data,
                    "Too many arguments"@,
                    LispObject::nil(),
                ) && signal.condition == LispObject::Symbol(QERROR),
                LispError::LetBinding { binding } => {
                    &&& signal.condition == LispObject::Symbol(QERROR)
                    &&& n.cons(signal.data) matches Some(cell)
                    &&& n.is_message(
                        signal.data,
                        "`let' bindings can have only one value-form"@,
                        cell.cdr,
                    )
                    &&& if m.genuine_list(binding) {
                        cell.cdr == binding
                    } else {
                        n.cons(cell.cdr) == Some(Cons { car: binding, cdr: LispObject::nil() })
                    }
                },
            }
        }),
{
    assert(m.tail(LispObject::nil(), 0) == Some(LispObject::nil()));
    assert(m.genuine_list(LispObject::nil()));
}

impl Memory {
    /// `list` is the list (`a` `b`).
    pub open spec fn is_list2(self, list: LispObject, a: LispObject, b: LispObject) -> bool {
        &&& self.cons(list) matches Some(first)
        &&& first.car == a
        &&& self.cons(first.cdr) == Some(Cons { car: b, cdr: LispObject::nil() })
    }

    /// `list` is a string with the text `msg`, and `rest` behind it.
    pub open spec fn is_message(self, list: LispObject, msg: Seq<char>, rest: LispObject) -> bool {
        &&& self.cons(list) matches Some(first)
        &&& first.cdr == rest
        &&& first.car matches LispObject::Str(id)
        &&& id < self.strings.len()
        &&& self.strings[id as int] == msg
    }
}

} // verus!

//! Lisp objects, and the symbols that the primitives know by name.
use vstd::prelude::*;

verus! {

/// A Lisp object. Two objects are `eq` when they are equal as values of this
/// type: a number is itself, everything else is its place on the heap.
#[derive(Clone, Copy, Debug, PartialEq, Eq, Structural)]
pub enum LispObject {
    Fixnum(i64),
    Symbol(usize),
    Cons(usize),
    Str(usize),
    Vectorlike(usize),
    /// An object of a type that no primitive looks into, such as a float.
    Other(usize),
}

/// A symbol, where only a symbol is meant.
#[derive(Clone, Copy, Debug, PartialEq, Eq, Structural)]
pub struct LispSymbolRef {
    pub id: usize,
}

/// A cons cell, where only a cons cell is meant.
#[derive(Clone, Copy, Debug, PartialEq, Eq, Structural)]
pub struct LispCons {
    pub id: usize,
}

/// A string, where only a string is meant.
#[derive(Clone, Copy, Debug, PartialEq, Eq, Structural)]
pub struct LispStringRef {
    pub id: usize,
}

impl LispSymbolRef {
    #[verifier::allow_in_spec]
    pub fn as_lisp_obj(self) -> LispObject
        returns
            LispObject::Symbol(self.id),
    {
        LispObject::Symbol(self.id)
    }
}

impl LispCons {
    #[verifier::allow_in_spec]
    pub fn as_lisp_obj(self) -> LispObject
        returns
            LispObject::Cons(self.id),
    {
        LispObject::Cons(self.id)
    }
}

impl LispStringRef {
    #[verifier::allow_in_spec]
    pub fn as_lisp_obj(self) -> LispObject
        returns
            LispObject::Str(self.id),
    {
        LispObject::Str(self.id)
    }
}

pub const QNIL: usize = 0;

pub const QT: usize = 1;

pub const QSETQ: usize = 2;

pub const QFUNCTION: usize = 3;

pub const QLAMBDA: usize = 4;

pub const QCLOSURE: usize = 5;

/// The keyword `:documentation`.
pub const QCDOCUMENTATION: usize = 6;

pub const QMACRO: usize = 7;

pub const QAUTOLOAD: usize = 8;

pub const QINTERACTIVE: usize = 9;

pub const QINTERACTIVE_FORM: usize = 10;

pub const QINTERNAL_INTERPRETER_ENVIRONMENT: usize = 11;

pub const QVARIABLE_DOCUMENTATION: usize = 12;

pub const QRISKY_LOCAL_VARIABLE: usize = 13;

pub const QWRONG_NUMBER_OF_ARGUMENTS: usize = 14;

pub const QWRONG_TYPE_ARGUMENT: usize = 15;

pub const QCIRCULAR_LIST: usize = 16;

pub const QERROR: usize = 17;

pub const QCONSP: usize = 18;

pub const QLISTP: usize = 19;

pub const QSYMBOLP: usize = 20;

pub const QSTRINGP: usize = 21;

/// How many symbols a new heap holds: those named above.
pub const STATIC_SYMBOLS: usize = 22;

impl LispObject {
    /// The object nil.
    #[verifier::allow_in_spec]
    pub fn nil() -> LispObject
        returns
            LispObject::Symbol(QNIL),
    {
        LispObject::Symbol(QNIL)
    }

    /// The object t.
    #[verifier::allow_in_spec]
    pub fn t() -> LispObject
        returns
            LispObject::Symbol(QT),
    {
        LispObject::Symbol(QT)
    }

    /// The object that stands for a truth value: t or nil.
    #[verifier::allow_in_spec]
    pub fn from_bool(b: bool) -> LispObject
        returns
            (if b {
                LispObject::Symbol(QT)
            } else {
                LispObject::Symbol(QNIL)
            }),
    {
        if b {
            LispObject::Symbol(QT)
        } else {
            LispObject::Symbol(QNIL)
        }
    }

    #[verifier::allow_in_spec]
    pub fn is_nil(self) -> bool
        returns
            self == LispObject::Symbol(QNIL),
    {
        self == LispObject::Symbol(QNIL)
    }
}

} // verus!

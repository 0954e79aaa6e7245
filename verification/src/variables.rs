//! Setting and defining variables.
use vstd::prelude::*;
use crate::errors::LispError;
use crate::heap::{Heap, Memory};
use crate::lists::{assq, car, cdr, next_cell};
use crate::machine::{Frame, Request, Step};
use crate::object::{
    LispObject, LispSymbolRef, QCONSP, QLISTP, QNIL, QRISKY_LOCAL_VARIABLE, QSETQ, QSYMBOLP, QT,
    QVARIABLE_DOCUMENTATION,
};

verus! {

impl Memory {
    /// `setq` at `rest`, after the value `val` and `nargs` arguments: the next
    /// value form is to be evaluated; `val` if no argument is left.
    pub open spec fn setq_step(
        self,
        list: LispObject,
        rest: LispObject,
        val: LispObject,
        nargs: usize,
    ) -> Step {
        match self.next_cell(list, rest) {
            Err(error) => Step::Fail(error),
            Ok(None) => Step::Done(val),
            Ok(Some(variable)) => match self.next_cell(list, variable.cdr) {
                Err(error) => Step::Fail(error),
                Ok(None) => Step::Fail(
                    LispError::WrongNumberOfArguments {
                        function: QSETQ,
                        count: nargs.wrapping_add(1),
                    },
                ),
                Ok(Some(value)) => Step::Call(
                    Request::Eval { form: value.car },
                    Frame::SetqValue { list, rest: value.cdr, sym: variable.car, nargs },
                ),
            },
        }
    }

    /// The cell of the lexical environment that binds `sym`, or nil.
    pub open spec fn lexical_binding(self, sym: LispObject) -> Result<LispObject, LispError> {
        if sym is Symbol && !self.lexenv.is_nil() {
            self.assq(sym, self.lexenv)
        } else {
            Ok(LispObject::nil())
        }
    }

    /// `setq` with the value `val` for `sym`: a lexical binding is changed in
    /// place, any other variable is to be set.
    pub open spec fn setq_store(
        self,
        list: LispObject,
        rest: LispObject,
        sym: LispObject,
        nargs: usize,
        val: LispObject,
    ) -> (Memory, Step) {
        match self.lexical_binding(sym) {
            Err(error) => (self, Step::Fail(error)),
            Ok(binding) => if self.cons(binding) is Some {
                let m = self.with_cdr(binding, val);
                (m, m.setq_step(list, rest, val, nargs.wrapping_add(2)))
            } else {
                (
                    self,
                    Step::Call(
                        Request::SetValue { sym, val },
                        Frame::SetqStored { list, rest, val, nargs: nargs.wrapping_add(2) },
                    ),
                )
            },
        }
    }

    /// `defconst`: the initial value is to be evaluated, once the number of
    /// arguments is seen to be right.
    pub open spec fn defconst(self, args: LispObject) -> Step {
        match self.cons(args) {
            None => Step::Fail(LispError::WrongType { predicate: QCONSP, value: args }),
            Some(cell) => match self.cdr(cell.cdr) {
                Err(error) => Step::Fail(error),
                Ok(doc) => match (self.cdr(doc), self.car(doc), self.car(cell.cdr)) {
                    (Ok(more), Ok(docstring), Ok(form)) => if !more.is_nil() {
                        Step::Fail(LispError::TooManyArguments)
                    } else {
                        Step::Call(
                            Request::Eval { form },
                            Frame::DefconstValue { sym: cell.car, docstring },
                        )
                    },
                    _ => Step::Fail(LispError::WrongType { predicate: QLISTP, value: doc }),
                },
            },
        }
    }

    /// `defconst` once the default value is set: the symbol becomes special, and
    /// its documentation, if there is any, is to be recorded.
    pub open spec fn defconst_stored(self, sym: LispObject, docstring: LispObject) -> (
        Memory,
        Step,
    ) {
        match sym {
            LispObject::Symbol(id) => {
                let m = self.with_special(id, true);
                (
                    m,
                    if docstring.is_nil() {
                        Step::Call(
                            Request::Put {
                                sym,
                                prop: LispObject::Symbol(QRISKY_LOCAL_VARIABLE),
                                val: LispObject::t(),
                            },
                            Frame::DefconstHistory { sym },
                        )
                    } else if m.purify_flag.is_nil() {
                        Step::Call(
                            Request::Put {
                                sym,
                                prop: LispObject::Symbol(QVARIABLE_DOCUMENTATION),
                                val: docstring,
                            },
                            Frame::DefconstRisky { sym },
                        )
                    } else {
                        Step::Call(
                            Request::Purecopy { obj: docstring },
                            Frame::DefconstDoc { sym },
                        )
                    },
                )
            },
            _ => (self, Step::Fail(LispError::WrongType { predicate: QSYMBOLP, value: sym })),
        }
    }
}

/// Sets each SYM to the value of its VAL. The symbols SYM are variables; they are
/// literal (not evaluated). The values VAL are expressions; they are evaluated.
/// Thus, (setq x (1+ y)) sets `x' to the value of `(1+ y)'. The second VAL is not
/// computed until after the first SYM is set, and so on; each VAL can use the new
/// value of variables set earlier in the `setq'. The return value of the `setq'
/// form is the value of the last VAL.
/// usage: (setq [SYM VAL]...)
pub fn setq(heap: &Heap, args: LispObject) -> (step: Step)
    ensures
        step == heap@.setq_step(args, args, args, 0),
{
    setq_next(heap, args, args, args, 0)
}

/// Goes on with `setq` at `rest`, after the value `val` and `nargs` arguments.
pub fn setq_next(
    heap: &Heap,
    list: LispObject,
    rest: LispObject,
    val: LispObject,
    nargs: usize,
) -> (step: Step)
    ensures
        step == heap@.setq_step(list, rest, val, nargs),
{
    match next_cell(heap, list, rest) {
        Err(error) => Step::Fail(error),
        Ok(None) => Step::Done(val),
        Ok(Some(variable)) => match next_cell(heap, list, variable.cdr) {
            Err(error) => Step::Fail(error),
            Ok(None) => Step::Fail(
                LispError::WrongNumberOfArguments { function: QSETQ, count: nargs.wrapping_add(1) },
            ),
            Ok(Some(value)) => Step::Call(
                Request::Eval { form: value.car },
                Frame::SetqValue { list, rest: value.cdr, sym: variable.car, nargs },
            ),
        },
    }
}

/// Goes on with `setq` with the value `val` for `sym`.
pub fn setq_store(
    heap: &mut Heap,
    list: LispObject,
    rest: LispObject,
    sym: LispObject,
    nargs: usize,
    val: LispObject,
) -> (step: Step)
    ensures
        (final(heap)@, step) == old(heap)@.setq_store(list, rest, sym, nargs, val),
{
    let lexenv = heap.lexenv();
    // The test against nil spares the search, and no more.
    let binding = match sym {
        LispObject::Symbol(_) => if lexenv.is_nil() {
            LispObject::Symbol(QNIL)
        } else {
            match assq(heap, sym, lexenv) {
                Ok(found) => found,
                Err(error) => {
                    return Step::Fail(error);
                },
            }
        },
        _ => LispObject::Symbol(QNIL),
    };
    if heap.cons_at(binding).is_some() {
        // SYM is lexically bound.
        heap.set_cdr(binding, val);
        setq_next(heap, list, rest, val, nargs.wrapping_add(2))
    } else {
        // SYM is dynamically bound.
        Step::Call(
            Request::SetValue { sym, val },
            Frame::SetqStored { list, rest, val, nargs: nargs.wrapping_add(2) },
        )
    }
}

/// Makes SYMBOL lexically scoped.
pub fn make_var_non_special(heap: &mut Heap, symbol: LispSymbolRef) -> (done: bool)
    ensures
        done,
        final(heap)@ == old(heap)@.with_special(symbol.id, false),
{
    heap.set_declared_special(symbol.id, false);
    true
}

/// Whether SYMBOL's global binding has been declared special. A special variable
/// is one that will be bound dynamically, even in a context where binding is
/// lexical by default.
pub fn special_variable_p(heap: &Heap, symbol: LispSymbolRef) -> (special: bool)
    ensures
        special == heap@.special(symbol.id),
{
    heap.declared_special(symbol.id)
}

/// Defines SYMBOL as a constant variable. This declares that neither programs nor
/// users should ever change the value. This constancy is not actually enforced,
/// but SYMBOL is marked as a special variable so that it is never lexically bound.
///
/// The `defconst' form always sets the value of SYMBOL to the result of evaluating
/// INITVALUE, by way of its default value. The optional DOCSTRING specifies the
/// variable's documentation string.
/// usage: (defconst SYMBOL INITVALUE [DOCSTRING])
pub fn defconst(heap: &Heap, args: LispObject) -> (step: Step)
    ensures
        step == heap@.defconst(args),
{
    let cell = match heap.cons_at(args) {
        Some(cell) => cell,
        None => {
            return Step::Fail(LispError::WrongType { predicate: QCONSP, value: args });
        },
    };
    let doc = match cdr(heap, cell.cdr) {
        Ok(doc) => doc,
        Err(error) => {
            return Step::Fail(error);
        },
    };
    match cdr(heap, doc) {
        Ok(more) => if !more.is_nil() {
            return Step::Fail(LispError::TooManyArguments);
        },
        Err(error) => {
            return Step::Fail(error);
        },
    }
    match (car(heap, doc), car(heap, cell.cdr)) {
        (Ok(docstring), Ok(form)) => Step::Call(
            Request::Eval { form },
            Frame::DefconstValue { sym: cell.car, docstring },
        ),
        (Err(error), _) => Step::Fail(error),
        (_, Err(error)) => Step::Fail(error),
    }
}

/// Goes on with `defconst` with the initial value `val`.
pub fn defconst_value(
    heap: &Heap,
    sym: LispObject,
    docstring: LispObject,
    val: LispObject,
) -> (step: Step)
    ensures
        step == if heap@.purify_flag.is_nil() {
            Step::Call(
                Request::SetDefault { sym, val },
                Frame::DefconstStored { sym, docstring },
            )
        } else {
            Step::Call(Request::Purecopy { obj: val }, Frame::DefconstPure { sym, docstring })
        },
{
    if heap.purify_flag().is_nil() {
        Step::Call(Request::SetDefault { sym, val }, Frame::DefconstStored { sym, docstring })
    } else {
        Step::Call(Request::Purecopy { obj: val }, Frame::DefconstPure { sym, docstring })
    }
}

/// Goes on with `defconst` once the default value is set.
pub fn defconst_stored(heap: &mut Heap, sym: LispObject, docstring: LispObject) -> (step: Step)
    ensures
        (final(heap)@, step) == old(heap)@.defconst_stored(sym, docstring),
{
    match sym {
        LispObject::Symbol(id) => {
            heap.set_declared_special(id, true);
            if docstring.is_nil() {
                defconst_risky(sym)
            } else if heap.purify_flag().is_nil() {
                defconst_doc(sym, docstring)
            } else {
                Step::Call(Request::Purecopy { obj: docstring }, Frame::DefconstDoc { sym })
            }
        },
        _ => Step::Fail(LispError::WrongType { predicate: QSYMBOLP, value: sym }),
    }
}

/// Goes on with `defconst` with the documentation in its last form.
pub fn defconst_doc(sym: LispObject, docstring: LispObject) -> (step: Step)
    ensures
        step == Step::Call(
            Request::Put {
                sym,
                prop: LispObject::Symbol(QVARIABLE_DOCUMENTATION),
                val: docstring,
            },
            Frame::DefconstRisky { sym },
        ),
{
    Step::Call(
        Request::Put {
            sym,
            prop: LispObject::Symbol(QVARIABLE_DOCUMENTATION),
            val: docstring,
        },
        Frame::DefconstRisky { sym },
    )
}

/// Goes on with `defconst` once the documentation is recorded.
pub fn defconst_risky(sym: LispObject) -> (step: Step)
    ensures
        step == Step::Call(
            Request::Put {
                sym,
                prop: LispObject::Symbol(QRISKY_LOCAL_VARIABLE),
                val: LispObject::t(),
            },
            Frame::DefconstHistory { sym },
        ),
{
    Step::Call(
        Request::Put {
            sym,
            prop: LispObject::Symbol(QRISKY_LOCAL_VARIABLE),
            val: LispObject::Symbol(QT),
        },
        Frame::DefconstHistory { sym },
    )
}

} // verus!

//! What is read from the heap and what a change of it changes.
use vstd::prelude::*;
use crate::heap::{Cons, Memory, SymbolCell};
use crate::object::{
    LispObject, QAUTOLOAD, QCDOCUMENTATION, QCIRCULAR_LIST, QCLOSURE, QCONSP, QERROR, QFUNCTION,
    QINTERACTIVE, QINTERACTIVE_FORM, QINTERNAL_INTERPRETER_ENVIRONMENT, QLAMBDA, QLISTP, QMACRO,
    QNIL, QRISKY_LOCAL_VARIABLE, QSETQ, QSTRINGP, QSYMBOLP, QT, QVARIABLE_DOCUMENTATION,
    QWRONG_NUMBER_OF_ARGUMENTS, QWRONG_TYPE_ARGUMENT, STATIC_SYMBOLS,
};

verus! {

/// A cons cell is the cell at its place on the heap, and nothing else is a cell; the same
/// holds of vectors. A symbol that the heap does not hold has no function definition and
/// is not special.
pub proof fn law_reads(m: Memory, obj: LispObject, id: usize)
    ensures
        id < m.conses.len() ==> m.cons(LispObject::Cons(id)) == Some(m.conses[id as int]),
        id >= m.conses.len() ==> m.cons(LispObject::Cons(id)) is None,
        !(obj is Cons) ==> m.cons(obj) is None,
        id < m.vectorlikes.len() ==> m.vectorlike(LispObject::Vectorlike(id)) == Some(
            m.vectorlikes[id as int],
        ),
        id >= m.vectorlikes.len() ==> m.vectorlike(LispObject::Vectorlike(id)) is None,
        !(obj is Vectorlike) ==> m.vectorlike(obj) is None,
        id < m.symbols.len() ==> m.function(id) == m.symbols[id as int].function,
        id < m.symbols.len() ==> m.special(id) == m.symbols[id as int].declared_special,
        id >= m.symbols.len() ==> m.function(id) == LispObject::nil() && !m.special(id),
{
}

/// Truth values are told apart: t stands for true, nil for false, and nil alone is nil.
pub proof fn law_truth(b: bool, obj: LispObject)
    ensures
        LispObject::from_bool(b).is_nil() == !b,
        LispObject::from_bool(true) == LispObject::t(),
        LispObject::from_bool(false) == LispObject::nil(),
        LispObject::t() != LispObject::nil(),
        obj.is_nil() <==> obj == LispObject::nil(),
{
}

/// A new cell is the last one, has the two halves that it was given, and is no cell that
/// was there before; all that was there stays as it was. The same holds of a new string.
pub proof fn law_makes(m: Memory, car: LispObject, cdr: LispObject, text: Seq<char>)
    ensures
        ({
            let (n, obj) = m.consed(car, cdr);
            &&& n.conses == m.conses.push(Cons { car, cdr })
            &&& m.conses.len() <= usize::MAX ==> obj == LispObject::Cons(m.conses.len() as usize)
            &&& n.symbols == m.symbols && n.strings == m.strings && n.vectorlikes == m.vectorlikes
            &&& n.lexenv == m.lexenv && n.purify_flag == m.purify_flag
        }),
        ({
            let (n, obj) = m.with_string(text);
            &&& n.strings == m.strings.push(text)
            &&& m.strings.len() <= usize::MAX ==> obj == LispObject::Str(m.strings.len() as usize)
            &&& n.symbols == m.symbols && n.conses == m.conses && n.vectorlikes == m.vectorlikes
            &&& n.lexenv == m.lexenv && n.purify_flag == m.purify_flag
        }),
{
}

/// A change of a cdr, of a special flag, of a function definition or of the lexical
/// environment changes that one thing. What the heap does not hold is not changed.
pub proof fn law_writes(
    m: Memory,
    obj: LispObject,
    val: LispObject,
    id: usize,
    special: bool,
)
    ensures
        ({
            let n = m.with_cdr(obj, val);
            &&& n.symbols == m.symbols && n.strings == m.strings && n.vectorlikes == m.vectorlikes
            &&& n.lexenv == m.lexenv && n.purify_flag == m.purify_flag
            &&& match obj {
                LispObject::Cons(place) if place < m.conses.len() => n.conses == m.conses.update(
                    place as int,
                    Cons { car: m.conses[place as int].car, cdr: val },
                ),
                _ => n.conses == m.conses,
            }
        }),
        ({
            let n = m.with_special(id, special);
            &&& n.conses == m.conses && n.strings == m.strings && n.vectorlikes == m.vectorlikes
            &&& n.lexenv == m.lexenv && n.purify_flag == m.purify_flag
            &&& if id < m.symbols.len() {
                n.symbols == m.symbols.update(
                    id as int,
                    SymbolCell {
                        function: m.symbols[id as int].function,
                        declared_special: special,
                    },
                )
            } else {
                n.symbols == m.symbols
            }
        }),
        ({
            let n = m.with_function(id, val);
            &&& n.conses == m.conses && n.strings == m.strings && n.vectorlikes == m.vectorlikes
            &&& n.lexenv == m.lexenv && n.purify_flag == m.purify_flag
            &&& if id < m.symbols.len() {
                n.symbols == m.symbols.update(
                    id as int,
                    SymbolCell {
                        function: val,
                        declared_special: m.symbols[id as int].declared_special,
                    },
                )
            } else {
                n.symbols == m.symbols
            }
        }),
        ({
            let n = m.with_lexenv(val);
            &&& n.conses == m.conses && n.strings == m.strings && n.vectorlikes == m.vectorlikes
            &&& n.symbols == m.symbols && n.lexenv == val && n.purify_flag == m.purify_flag
        }),
{
}

/// The symbols known by name.
pub open spec fn named_symbols() -> Seq<usize> {
    seq![
        QNIL,
        QT,
        QSETQ,
        QFUNCTION,
        QLAMBDA,
        QCLOSURE,
        QCDOCUMENTATION,
        QMACRO,
        QAUTOLOAD,
        QINTERACTIVE,
        QINTERACTIVE_FORM,
        QINTERNAL_INTERPRETER_ENVIRONMENT,
        QVARIABLE_DOCUMENTATION,
        QRISKY_LOCAL_VARIABLE,
        QWRONG_NUMBER_OF_ARGUMENTS,
        QWRONG_TYPE_ARGUMENT,
        QCIRCULAR_LIST,
        QERROR,
        QCONSP,
        QLISTP,
        QSYMBOLP,
        QSTRINGP,
    ]
}

/// The symbols known by name are different symbols, and a new heap holds just these.
pub proof fn law_names(i: int, j: int)
    requires
        0 <= i < named_symbols().len(),
        0 <= j < named_symbols().len(),
        i != j,
    ensures
        named_symbols()[i] != named_symbols()[j],
        named_symbols()[i] < STATIC_SYMBOLS,
        named_symbols().len() == STATIC_SYMBOLS,
{
}

} // verus!

//! Commands and autoloads.
use vstd::prelude::*;
use crate::errors::LispError;
use crate::heap::{Cons, Memory, Vectorlike};
use crate::machine::{Frame, Request, Step};
use crate::object::{
    LispObject, LispStringRef, LispSymbolRef, QAUTOLOAD, QCLOSURE, QINTERACTIVE, QINTERACTIVE_FORM,
    QLAMBDA, QLISTP,
};

verus! {

/// `commandp` goes along the chain of symbols if it has an end: it asks for the property
/// of a symbol, goes on with the function definition of that symbol, and remembers that a
/// property was non-nil. Any other function decides.
pub proof fn law_commandp_step(
    m: Memory,
    function: LispObject,
    for_call_interactively: bool,
    has_property: bool,
    symbol: usize,
    reply: LispObject,
)
    ensures
        Memory::commandp(function, for_call_interactively) == Step::Call(
            Request::IndirectFunction { obj: function },
            Frame::CommandFound { function, for_call_interactively },
        ),
        m.resumed(
            Frame::CommandFound { function, for_call_interactively },
            LispObject::nil(),
        ) == (m, Step::Done(LispObject::nil())),
        !reply.is_nil() ==> m.resumed(
            Frame::CommandFound { function, for_call_interactively },
            reply,
        ) == (m, m.command_step(function, for_call_interactively, false)),
        m.command_step(LispObject::Symbol(symbol), for_call_interactively, has_property)
            == Step::Call(
            Request::Get {
                sym: LispObject::Symbol(symbol),
                prop: LispObject::Symbol(QINTERACTIVE_FORM),
            },
            Frame::CommandProperty { symbol, for_call_interactively, has_property },
        ),
        m.resumed(
            Frame::CommandProperty { symbol, for_call_interactively, has_property },
            reply,
        ) == (
            m,
            m.command_step(
                m.function(symbol),
                for_call_interactively,
                has_property || reply != LispObject::nil(),
            ),
        ),
        !(function is Symbol) ==> m.command_step(function, for_call_interactively, has_property)
            == match m.command_definition(function, for_call_interactively, has_property) {
            Ok(true) => Step::Done(LispObject::t()),
            Ok(false) => Step::Done(LispObject::nil()),
            Err(error) => Step::Fail(error),
        },
{
}

/// What kind of object is a command: a string or a vector unless the call is to be
/// interactive, whatever the property; a built-in function with an interactive spec, and a
/// byte code object of more than five elements, or either with the property. A list that
/// begins with none of `closure', `lambda' and `autoload' is none, and neither is any other
/// object, whatever the property.
pub proof fn law_command_objects(
    m: Memory,
    fun: LispObject,
    for_call_interactively: bool,
    has_property: bool,
)
    ensures
        ({
            let command = m.command_definition(fun, for_call_interactively, has_property);
            &&& fun is Str ==> command == Ok::<bool, LispError>(!for_call_interactively)
            &&& m.vectorlike(fun) == Some(Vectorlike::Vector) ==> command == Ok::<bool, LispError>(
                !for_call_interactively,
            )
            &&& m.vectorlike(fun) matches Some(Vectorlike::Subr { interactive }) ==> command
                == Ok::<bool, LispError>(interactive || has_property)
            &&& m.vectorlike(fun) matches Some(Vectorlike::Pseudovector { compiled, size })
                ==> command == Ok::<bool, LispError>((compiled && size > 5) || has_property)
            &&& fun is Fixnum || fun is Other || fun is Symbol ==> command == Ok::<bool, LispError>(
                false,
            )
            &&& m.cons(fun) matches Some(cell) ==> cell.car != LispObject::Symbol(QCLOSURE)
                && cell.car != LispObject::Symbol(QLAMBDA) && cell.car != LispObject::Symbol(
                QAUTOLOAD,
            ) ==> command == Ok::<bool, LispError>(false)
            &&& fun is Cons && m.cons(fun) is None ==> command == Ok::<bool, LispError>(false)
            &&& fun is Vectorlike && m.vectorlike(fun) is None ==> command == Ok::<
                bool,
                LispError,
            >(false)
        }),
{
}

impl Memory {
    /// What is behind the first `n` elements of a list, nil if there are not so many, by
    /// its cells; none if a cell is missing where there is no nil.
    pub open spec fn behind(self, obj: LispObject, n: nat) -> Result<LispObject, LispObject>
        decreases n,
    {
        if n == 0 {
            Ok(obj)
        } else {
            match self.cons(obj) {
                Some(cell) => self.behind(cell.cdr, (n - 1) as nat),
                None => if obj == LispObject::nil() {
                    Ok(obj)
                } else {
                    Err(obj)
                },
            }
        }
    }
}

/// The function (lambda ARGUMENTS BODY...) is a command by what `assq' finds for
/// `interactive' in its body, and (closure ENVIRONMENT ARGUMENTS BODY...) likewise; either
/// is one with the property. One that is cut off by something that is no list is an error,
/// and so is a body that cannot be searched.
pub proof fn law_command_bodies(
    m: Memory,
    fun: LispObject,
    cell: Cons,
    for_call_interactively: bool,
    has_property: bool,
)
    requires
        m.cons(fun) == Some(cell),
        cell.car == LispObject::Symbol(QLAMBDA) || cell.car == LispObject::Symbol(QCLOSURE),
    ensures
        ({
            let skipped: nat = if cell.car == LispObject::Symbol(QLAMBDA) {
                1
            } else {
                2
            };
            m.command_definition(fun, for_call_interactively, has_property) == match m.behind(
                cell.cdr,
                skipped,
            ) {
                Err(value) => Err(LispError::WrongType { predicate: QLISTP, value }),
                Ok(body) => match m.assq(LispObject::Symbol(QINTERACTIVE), body) {
                    Err(error) => Err(error),
                    Ok(found) => Ok(found != LispObject::nil() || has_property),
                },
            }
        }),
{
    reveal_with_fuel(Memory::nthcdr, 3);
    reveal_with_fuel(Memory::behind, 3);
}

/// The definition (autoload FILE DOCSTRING INTERACTIVE TYPE) is a command if INTERACTIVE is
/// non-nil, or with the property. One that ends before it is none by itself, and one that
/// is cut off by something that is no list is an error.
pub proof fn law_command_autoload(
    m: Memory,
    fun: LispObject,
    cell: Cons,
    for_call_interactively: bool,
    has_property: bool,
)
    requires
        m.cons(fun) == Some(cell),
        cell.car == LispObject::Symbol(QAUTOLOAD),
    ensures
        m.command_definition(fun, for_call_interactively, has_property) == match m.behind(
            cell.cdr,
            2,
        ) {
            Err(value) => Err(LispError::WrongType { predicate: QLISTP, value }),
            Ok(rest) => match m.cons(rest) {
                Some(parts) => Ok(parts.car != LispObject::nil() || has_property),
                None => if rest == LispObject::nil() {
                    Ok(has_property)
                } else {
                    Err(LispError::WrongType { predicate: QLISTP, value: rest })
                },
            },
        },
{
    reveal_with_fuel(Memory::nthcdr, 3);
    reveal_with_fuel(Memory::behind, 3);
}

/// The documentation that `autoload` records is the one that it is given, but for 0 while
/// the purify flag is on, for which it is the number of the symbol.
pub proof fn law_autoload_documentation(
    m: Memory,
    symbol: LispSymbolRef,
    docstring: LispObject,
)
    ensures
        m.purify_flag.is_nil() || docstring != LispObject::Fixnum(0) ==> m.autoload_docstring(
            symbol,
            docstring,
        ) == docstring,
        !m.purify_flag.is_nil() ==> m.autoload_docstring(symbol, LispObject::Fixnum(0))
            == LispObject::Fixnum(symbol.id as i64),
        !m.purify_flag.is_nil() && symbol.id <= i64::MAX ==> (m.autoload_docstring(
            symbol,
            LispObject::Fixnum(0),
        ) matches LispObject::Fixnum(number) && number == symbol.id),
{
}

impl Memory {
    /// This memory is `base` with `count` more cells, and nothing else is different.
    pub open spec fn adds_cells(self, base: Memory, count: nat) -> bool {
        &&& base.conses.is_prefix_of(self.conses)
        &&& self.conses.len() == base.conses.len() + count
        &&& self.symbols == base.symbols && self.strings == base.strings
        &&& self.vectorlikes == base.vectorlikes
        &&& self.lexenv == base.lexenv && self.purify_flag == base.purify_flag
    }
}

/// The step asks for the list of the `items`, and of nothing more, to be recorded as the
/// definition of `symbol`.
pub open spec fn asks_for_definition(
    m: Memory,
    step: Step,
    symbol: LispSymbolRef,
    items: Seq<LispObject>,
) -> bool {
    &&& step matches Step::Call(Request::Defalias { sym, def, doc }, Frame::Return)
    &&& sym == LispObject::Symbol(symbol.id)
    &&& doc == LispObject::nil()
    &&& exists|spine: Seq<LispObject>| #[trigger]
        m.holds(spine, items) && spine[0] == def && spine.last() == LispObject::nil()
}

/// `autoload` of a symbol that has no definition, or one that begins with `autoload', asks
/// for a new list of five elements to be recorded as its definition: `autoload', the file,
/// the documentation, whether it is interactive, and its type. All that was on the heap
/// stays as it was. Any other definition is left alone: the heap does not change, nothing
/// is asked for, and the result is nil.
pub proof fn law_autoload_list(
    m: Memory,
    symbol: LispSymbolRef,
    file: LispStringRef,
    docstring: LispObject,
    interactive: LispObject,
    ty: LispObject,
)
    requires
        m.conses.len() + 5 <= usize::MAX,
    ensures
        ({
            let current = m.function(symbol.id);
            let free = current == LispObject::nil() || (m.cons(current) matches Some(cell)
                && cell.car == LispObject::Symbol(QAUTOLOAD));
            let (n, step) = m.autoload(symbol, file, docstring, interactive, ty);
            let items = seq![
                LispObject::Symbol(QAUTOLOAD),
                LispObject::Str(file.id),
                m.autoload_docstring(symbol, docstring),
                interactive,
                ty,
            ];
            &&& !free ==> n == m && step == Step::Done(LispObject::nil())
            &&& free ==> n.adds_cells(m, 5) && asks_for_definition(n, step, symbol, items)
        }),
{
    let (n, step) = m.autoload(symbol, file, docstring, interactive, ty);
    let len = m.conses.len();
    let spine = seq![
        LispObject::Cons((len + 4) as usize),
        LispObject::Cons((len + 3) as usize),
        LispObject::Cons((len + 2) as usize),
        LispObject::Cons((len + 1) as usize),
        LispObject::Cons(len as usize),
        LispObject::nil(),
    ];
    let items = seq![
        LispObject::Symbol(QAUTOLOAD),
        LispObject::Str(file.id),
        m.autoload_docstring(symbol, docstring),
        interactive,
        ty,
    ];
    if step is Call {
        assert(n.holds(spine, items));
    }
}

} // verus!

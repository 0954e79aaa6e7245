//! What a call of each primitive does, told by the cells that it is given.
//!
//! A law of this file speaks of a call that has come to its end: `call_ensures` of the
//! function, its arguments and its result. For a call that may change the heap, `old` is
//! the heap before it and `final` the heap after it.
use vstd::prelude::*;
use crate::binding::{let_binding_value, letX, lisp_let, LetBinding};
use crate::command::{autoload, command_definition, commandp};
use crate::control::{and, cond, lisp_if, lisp_while, or, prog1, prog2, prog_ignore, progn};
use crate::errors::{signal, signal_error, LispError, Signal};
use crate::functions::{apply1, function, macroexpand};
use crate::heap::{Cons, Heap, Memory, SymbolCell, Vectorlike};
use crate::lists::{assq, car, cdr, genuine_list, length, memq};
use crate::machine::{After, Bindings, Frame, Request, Scope, Step};
use crate::object::{
    LispCons, LispObject, LispStringRef, LispSymbolRef, QAUTOLOAD, QCLOSURE, QCONSP, QLAMBDA,
    QLISTP, QMACRO, QSETQ,
};
use crate::resume::{can_resume, resume};
use crate::variables::{defconst, make_var_non_special, setq, special_variable_p};

verus! {

/// `or` and `and` ask for the value of the first argument there is, and keep those behind
/// it. Without an argument `or` is nil, and `and` is t.
pub proof fn law_or_and(heap: &Heap, args: LispObject, either: Step, both: Step)
    requires
        call_ensures(or, (heap, args), either),
        call_ensures(and, (heap, args), both),
    ensures
        heap@.cons(args) is None ==> either == Step::Done(LispObject::nil()) && both == Step::Done(
            LispObject::t(),
        ),
        heap@.cons(args) matches Some(cell) ==> either == Step::Call(
            Request::Eval { form: cell.car },
            Frame::Or { rest: cell.cdr },
        ) && both == Step::Call(Request::Eval { form: cell.car }, Frame::And { rest: cell.cdr }),
{
}

/// `if` asks for the value of its condition, and `cond` for that of the condition of its
/// first clause. A missing condition is an error of `if`, as a clause that is no cell is
/// one of `cond`; `cond` without a clause is nil.
pub proof fn law_if_cond(heap: &Heap, args: LispObject, chosen: Step, tried: Step)
    requires
        call_ensures(lisp_if, (heap, args), chosen),
        call_ensures(cond, (heap, args), tried),
    ensures
        heap@.cons(args) is None ==> chosen == crate::laws::steps::control::no_cell(args) && tried
            == Step::Done(LispObject::nil()),
        heap@.cons(args) matches Some(cell) ==> chosen == Step::Call(
            Request::Eval { form: cell.car },
            Frame::If { cell: args },
        ),
        heap@.cons(args) matches Some(cell) ==> tried == match heap@.cons(cell.car) {
            None => crate::laws::steps::control::no_cell(cell.car),
            Some(clause) => Step::Call(
                Request::Eval { form: clause.car },
                Frame::Cond { clause: cell.car, rest: cell.cdr },
            ),
        },
{
}

/// `progn` and a body whose value is dropped ask for the value of the first form there is,
/// and are nil without one.
pub proof fn law_progn(heap: &Heap, body: LispObject, last: Step, dropped: Step)
    requires
        call_ensures(progn, (heap, body), last),
        call_ensures(prog_ignore, (heap, body), dropped),
    ensures
        heap@.cons(body) is None ==> last == Step::Done(LispObject::nil()) && dropped == Step::Done(
            LispObject::nil(),
        ),
        heap@.cons(body) matches Some(cell) ==> last == Step::Call(
            Request::Eval { form: cell.car },
            Frame::Progn { rest: cell.cdr, after: After::Value },
        ) && dropped == Step::Call(
            Request::Eval { form: cell.car },
            Frame::Progn {
                rest: cell.cdr,
                after: After::Constant { value: LispObject::nil() },
            },
        ),
{
}

/// `prog1` and `prog2` ask for the value of their first form; without one they are an
/// error.
pub proof fn law_prog(heap: &Heap, args: LispObject, first: Step, second: Step)
    requires
        call_ensures(prog1, (heap, args), first),
        call_ensures(prog2, (heap, args), second),
    ensures
        heap@.cons(args) is None ==> first == crate::laws::steps::control::no_cell(args) && second
            == first,
        heap@.cons(args) matches Some(cell) ==> first == Step::Call(
            Request::Eval { form: cell.car },
            Frame::Prog1 { body: cell.cdr },
        ) && second == Step::Call(
            Request::Eval { form: cell.car },
            Frame::Prog2 { rest: cell.cdr },
        ),
{
}

/// `while` asks for the value of its test, and keeps the test and the body.
pub proof fn law_while(heap: &Heap, args: LispCons, cell: Cons, step: Step)
    requires
        heap@.cons(LispObject::Cons(args.id)) == Some(cell),
        call_ensures(lisp_while, (heap, args), step),
    ensures
        step == Step::Call(
            Request::Eval { form: cell.car },
            Frame::WhileTest { test: cell.car, body: cell.cdr },
        ),
{
}

/// `setq` of the arguments in a chain of cells: without any it is nil; it asks for the value
/// of the second one and keeps the first one as the variable; with one alone it complains
/// of the number of arguments. A chain that ends otherwise is an error, when it comes to
/// its end.
pub proof fn law_setq(
    heap: &Heap,
    spine: Seq<LispObject>,
    items: Seq<LispObject>,
    step: Step,
)
    requires
        heap@.holds(spine, items),
        call_ensures(setq, (heap, spine[0]), step),
    ensures
        items.len() >= 2 ==> step == Step::Call(
            Request::Eval { form: items[1] },
            Frame::SetqValue { list: spine[0], rest: spine[2], sym: items[0], nargs: 0 },
        ),
        items.len() < 2 && spine.last() != LispObject::nil() ==> step
            == crate::laws::steps::variables::no_list(spine[0]),
        items.len() == 0 && spine.last() == LispObject::nil() ==> step == Step::Done(
            LispObject::nil(),
        ),
        items.len() == 1 && spine.last() == LispObject::nil() ==> step == Step::Fail(
            LispError::WrongNumberOfArguments { function: QSETQ, count: 1 },
        ),
{
    crate::laws::lists::law_chain(heap@, spine, items);
    crate::laws::steps::variables::law_setq_step(heap@, spine[0], spine[0], spine[0], 0);
    if items.len() >= 1 {
        assert(heap@.cons(spine[0]) is Some);
    }
    if items.len() >= 2 {
        assert(heap@.cons(spine[1]) is Some);
    }
}

/// `setq` of arguments that go round in a circle is an error.
pub proof fn law_setq_circle(
    heap: &Heap,
    spine: Seq<LispObject>,
    items: Seq<LispObject>,
    back: int,
    step: Step,
)
    requires
        heap@.circles(spine, items, back),
        call_ensures(setq, (heap, spine[0]), step),
    ensures
        step == Step::Fail(LispError::CircularList { list: spine[0] }),
{
    crate::laws::lists::law_circle(heap@, spine, items, back);
    assert(heap@.cons(spine[0]) is Some);
    crate::laws::steps::variables::law_setq_step(heap@, spine[0], spine[0], spine[0], 0);
}

/// `defconst` of two or three arguments asks for the value of the second one, and keeps the
/// first one as the symbol and the third one, if there is one, as the documentation; more
/// of them are refused.
pub proof fn law_defconst(
    heap: &Heap,
    spine: Seq<LispObject>,
    items: Seq<LispObject>,
    step: Step,
)
    requires
        heap@.holds(spine, items),
        spine.last() == LispObject::nil(),
        items.len() >= 1,
        call_ensures(defconst, (heap, spine[0]), step),
    ensures
        items.len() <= 3 ==> step == Step::Call(
            Request::Eval {
                form: if items.len() >= 2 {
                    items[1]
                } else {
                    LispObject::nil()
                },
            },
            Frame::DefconstValue {
                sym: items[0],
                docstring: if items.len() == 3 {
                    items[2]
                } else {
                    LispObject::nil()
                },
            },
        ),
        items.len() > 3 ==> step == Step::Fail(LispError::TooManyArguments),
{
    crate::laws::steps::variables::law_defconst_begins(heap@, spine[0]);
    assert(heap@.cons(spine[0]) is Some);
    if items.len() >= 2 {
        assert(heap@.cons(spine[1]) is Some);
    }
    if items.len() >= 3 {
        assert(heap@.cons(spine[2]) is Some);
    }
    if items.len() >= 4 {
        assert(heap@.cons(spine[3]) is Some);
    }
}

/// After `make_var_non_special` the symbol is not special, and nothing else has changed.
/// `special_variable_p` tells the flag of the symbol.
pub proof fn law_special(
    heap: &mut Heap,
    before: &Heap,
    symbol: LispSymbolRef,
    done: bool,
    special: bool,
    other: usize,
)
    requires
        call_ensures(make_var_non_special, (heap, symbol), done),
        call_ensures(special_variable_p, (before, symbol), special),
    ensures
        done,
        !final(heap)@.special(symbol.id),
        other != symbol.id ==> final(heap)@.special(other) == old(heap)@.special(other),
        final(heap)@.function(other) == old(heap)@.function(other),
        final(heap)@.conses == old(heap)@.conses && final(heap)@.strings == old(heap)@.strings,
        final(heap)@.vectorlikes == old(heap)@.vectorlikes,
        final(heap)@.symbols.len() == old(heap)@.symbols.len(),
        final(heap)@.lexenv == old(heap)@.lexenv,
        final(heap)@.purify_flag == old(heap)@.purify_flag,
        symbol.id < before@.symbols.len() ==> special
            == before@.symbols[symbol.id as int].declared_special,
        symbol.id >= before@.symbols.len() ==> !special,
{
}

/// `let*` of a variable list that is a list lets the user quit at the first element, and
/// keeps that element and those behind it, the body, the environment and the depth of the
/// bindings; without an element it evaluates its body.
pub proof fn law_let_star(
    heap: &Heap,
    args: LispCons,
    body: LispObject,
    spine: Seq<LispObject>,
    items: Seq<LispObject>,
    count: i64,
    step: Step,
)
    requires
        heap@.holds(spine, items),
        heap@.cons(LispObject::Cons(args.id)) == Some(Cons { car: spine[0], cdr: body }),
        call_ensures(letX, (heap, args, count), step),
    ensures
        items.len() > 0 ==> step == Step::Call(
            Request::MaybeQuit,
            Frame::LetStarPolled {
                scope: Scope {
                    varlist: spine[0],
                    rest: spine[1],
                    body,
                    lexenv: heap@.lexenv,
                    count,
                },
                binding: items[0],
            },
        ),
        items.len() == 0 && spine[0] != LispObject::nil() ==> step
            == crate::laws::steps::variables::no_list(spine[0]),
        items.len() == 0 && spine[0] == LispObject::nil() ==> step == match heap@.cons(body) {
            Some(cell) => Step::Call(
                Request::Eval { form: cell.car },
                Frame::Progn { rest: cell.cdr, after: After::Unbind { count } },
            ),
            None => Step::Call(
                Request::UnbindTo { count, val: LispObject::nil() },
                Frame::Return,
            ),
        },
{
    crate::laws::lists::law_chain(heap@, spine, items);
    if items.len() > 0 {
        assert(heap@.cons(spine[0]) is Some);
    }
}

/// `let` of a variable list whose first element has a value form asks for its value, and
/// keeps the variable, the elements behind it, the body, the environment and the depth of
/// the bindings; it has no value yet, and the heap does not change. Without an element it
/// evaluates its body.
pub proof fn law_let(
    heap: &mut Heap,
    args: LispCons,
    body: LispObject,
    spine: Seq<LispObject>,
    items: Seq<LispObject>,
    count: i64,
    step: Step,
)
    requires
        old(heap)@.holds(spine, items),
        old(heap)@.cons(LispObject::Cons(args.id)) == Some(Cons { car: spine[0], cdr: body }),
        call_ensures(lisp_let, (heap, args, count), step),
    ensures
        items.len() > 0 ==> (old(heap)@.let_binding_value(items[0]) matches Ok(
            LetBinding::Form { var, form },
        ) ==> final(heap)@ == old(heap)@ && step == Step::Call(
            Request::Eval { form },
            Frame::LetValue {
                scope: Scope {
                    varlist: spine[0],
                    rest: spine[1],
                    body,
                    lexenv: old(heap)@.lexenv,
                    count,
                },
                var,
                values: Bindings::Empty,
            },
        )),
        items.len() > 0 ==> (old(heap)@.let_binding_value(items[0]) matches Err(error)
            ==> final(heap)@ == old(heap)@ && step == Step::Fail(error)),
        items.len() == 0 && spine[0] != LispObject::nil() ==> final(heap)@ == old(heap)@ && step
            == crate::laws::steps::variables::no_list(spine[0]),
        items.len() == 0 && spine[0] == LispObject::nil() ==> final(heap)@ == old(heap)@ && step
            == match old(heap)@.cons(body) {
            Some(cell) => Step::Call(
                Request::Eval { form: cell.car },
                Frame::Progn { rest: cell.cdr, after: After::Unbind { count } },
            ),
            None => Step::Call(
                Request::UnbindTo { count, val: LispObject::nil() },
                Frame::Return,
            ),
        },
{
    crate::laws::lists::law_chain(old(heap)@, spine, items);
    let scope = Scope {
        varlist: spine[0],
        rest: spine[0],
        body,
        lexenv: old(heap)@.lexenv,
        count,
    };
    let nil = LispObject::nil();
    crate::laws::steps::binding::law_let_step(old(heap)@, scope, Bindings::Empty, nil, nil);
    if items.len() > 0 {
        assert(old(heap)@.cons(spine[0]) is Some);
    }
}

/// A call with a list of arguments is a call without any if the list is nil, and returns
/// what the call returns.
pub proof fn law_apply(func: LispObject, arg: LispObject, step: Step)
    requires
        call_ensures(apply1, (func, arg), step),
    ensures
        arg == LispObject::nil() ==> step == Step::Call(Request::Funcall { func }, Frame::Return),
        arg != LispObject::nil() ==> step == Step::Call(
            Request::Apply { func, arg },
            Frame::Return,
        ),
{
}

/// `macroexpand` of a call keeps its head and its arguments, in every environment; what is
/// no call is returned.
pub proof fn law_macroexpand_call(
    heap: &Heap,
    form: LispObject,
    environment: LispObject,
    step: Step,
)
    requires
        call_ensures(macroexpand, (heap, form, environment), step),
    ensures
        heap@.cons(form) is None ==> step == Step::Done(form),
        heap@.cons(form) matches Some(cell) ==> step == match cell.car {
            LispObject::Symbol(symbol) => Step::Call(
                Request::MaybeQuit,
                Frame::MacroPolled { form, body: cell.cdr, environment, symbol },
            ),
            head => Step::Call(
                Request::AutoloadDoLoad {
                    def: head,
                    name: head,
                    macro_only: LispObject::Symbol(QMACRO),
                },
                Frame::MacroLoaded { form, body: cell.cdr, environment },
            ),
        },
{
}

/// `commandp` asks for the end of the chain of symbols, and keeps its arguments.
pub proof fn law_commandp_call(fun: LispObject, for_call_interactively: bool, step: Step)
    requires
        call_ensures(commandp, (fun, for_call_interactively), step),
    ensures
        step == Step::Call(
            Request::IndirectFunction { obj: fun },
            Frame::CommandFound { function: fun, for_call_interactively },
        ),
{
}

/// A string or a vector is a command unless the call is to be interactive; a list that
/// begins with none of `closure', `lambda' and `autoload' is none; the others are told by
/// `law_command_bodies`, `law_command_autoload` and `law_command_objects`.
pub proof fn law_command_call(
    heap: &Heap,
    fun: LispObject,
    for_call_interactively: bool,
    has_property: bool,
    command: Result<bool, LispError>,
)
    requires
        call_ensures(
            command_definition,
            (heap, fun, for_call_interactively, has_property),
            command,
        ),
    ensures
        command == heap@.command_definition(fun, for_call_interactively, has_property),
        fun is Str || heap@.vectorlike(fun) == Some(Vectorlike::Vector) ==> command == Ok::<
            bool,
            LispError,
        >(!for_call_interactively),
        heap@.cons(fun) matches Some(cell) ==> cell.car != LispObject::Symbol(QCLOSURE) && cell.car
            != LispObject::Symbol(QLAMBDA) && cell.car != LispObject::Symbol(QAUTOLOAD) ==> command
            == Ok::<bool, LispError>(false),
{
}

/// `autoload` of a symbol without a definition, or with an autoload, asks for a new list of
/// `autoload', the file, the documentation, whether it is interactive, and the type; of any
/// other symbol it does nothing and returns nil.
pub proof fn law_autoload_call(
    heap: &mut Heap,
    symbol: LispSymbolRef,
    file: LispStringRef,
    docstring: LispObject,
    interactive: LispObject,
    ty: LispObject,
    step: Step,
)
    requires
        old(heap)@.conses.len() + 5 <= usize::MAX,
        call_ensures(autoload, (heap, symbol, file, docstring, interactive, ty), step),
    ensures
        ({
            let current = old(heap)@.function(symbol.id);
            if current == LispObject::nil() || old(heap)@.is_pair_of(
                LispObject::Symbol(QAUTOLOAD),
                current,
            ) {
                let items = seq![
                    LispObject::Symbol(QAUTOLOAD),
                    LispObject::Str(file.id),
                    if old(heap)@.purify_flag != LispObject::nil() && docstring
                        == LispObject::Fixnum(0) {
                        LispObject::Fixnum(symbol.id as i64)
                    } else {
                        docstring
                    },
                    interactive,
                    ty,
                ];
                &&& final(heap)@.adds_cells(old(heap)@, 5)
                &&& crate::laws::steps::command::asks_for_definition(
                    final(heap)@,
                    step,
                    symbol,
                    items,
                )
            } else {
                final(heap)@ == old(heap)@ && step == Step::Done(LispObject::nil())
            }
        }),
{
    crate::laws::steps::command::law_autoload_list(
        old(heap)@,
        symbol,
        file,
        docstring,
        interactive,
        ty,
    );
}

/// `function` of one argument returns that argument where binding is dynamic, and where it
/// is no lambda expression; a lambda expression without documentation becomes a closure in
/// two new cells. What else it does, `law_function_step` and `law_function_refuses` tell.
pub proof fn law_function_call(heap: &mut Heap, args: LispObject, quoted: LispObject, step: Step)
    requires
        old(heap)@.conses.len() + 2 <= usize::MAX,
        old(heap)@.cons(args) == Some(Cons { car: quoted, cdr: LispObject::nil() }),
        call_ensures(function, (heap, args), step),
    ensures
        (final(heap)@, step) == old(heap)@.quote_function(args),
        old(heap)@.lexenv == LispObject::nil() || !old(heap)@.is_pair_of(
            LispObject::Symbol(QLAMBDA),
            quoted,
        ) ==> final(heap)@ == old(heap)@ && step == Step::Done(quoted),
        old(heap)@.lexenv != LispObject::nil() ==> (old(heap)@.cons(quoted) matches Some(cell)
            ==> cell.car == LispObject::Symbol(QLAMBDA) && old(heap)@.documented_by(cell.cdr)
            is None ==> final(heap)@ == old(heap)@.closed_over(cell.cdr) && step == Step::Done(
            LispObject::Cons((old(heap)@.conses.len() + 1) as usize),
        )),
{
    crate::laws::steps::functions::law_function_step(old(heap)@, args, quoted);
}

/// When the default value of a constant is set, its symbol becomes special, whatever the
/// documentation is; no other symbol and no cell changes.
pub proof fn law_defconst_special(
    heap: &mut Heap,
    id: usize,
    docstring: LispObject,
    reply: LispObject,
    step: Step,
    other: usize,
)
    requires
        id < old(heap)@.symbols.len(),
        call_ensures(
            resume,
            (heap, Frame::DefconstStored { sym: LispObject::Symbol(id), docstring }, reply),
            step,
        ),
    ensures
        final(heap)@.special(id),
        other != id ==> final(heap)@.special(other) == old(heap)@.special(other),
        final(heap)@.function(other) == old(heap)@.function(other),
        final(heap)@.conses == old(heap)@.conses && final(heap)@.lexenv == old(heap)@.lexenv,
{
}

/// To go on with a frame is what the laws of the steps say of it. That is possible unless
/// a cell that `if`, `cond` or `function` goes back to is gone.
pub proof fn law_resume(
    heap: &mut Heap,
    before: &Heap,
    frame: Frame,
    reply: LispObject,
    step: Step,
    ready: bool,
)
    requires
        call_ensures(resume, (heap, frame, reply), step),
        call_ensures(can_resume, (before, &frame, reply), ready),
    ensures
        (final(heap)@, step) == old(heap)@.resumed(frame, reply),
        ready == match frame {
            Frame::If { cell } => before@.cons(cell) is Some,
            Frame::Cond { clause, .. } => before@.cons(clause) is Some,
            Frame::FunctionDoc { lambda } => reply is Str ==> (before@.cons(lambda) matches Some(
                arguments,
            ) && before@.cons(arguments.cdr) is Some),
            _ => true,
        },
{
    reveal_with_fuel(Memory::tail, 2);
}

/// The car and the cdr of a cell are its halves, those of nil are nil, and those of
/// anything else are an error.
pub proof fn law_car_cdr(
    heap: &Heap,
    obj: LispObject,
    front: Result<LispObject, LispError>,
    behind: Result<LispObject, LispError>,
)
    requires
        call_ensures(car, (heap, obj), front),
        call_ensures(cdr, (heap, obj), behind),
    ensures
        heap@.cons(obj) matches Some(cell) ==> front == Ok::<LispObject, LispError>(cell.car)
            && behind == Ok::<LispObject, LispError>(cell.cdr),
        obj == LispObject::nil() ==> front == Ok::<LispObject, LispError>(LispObject::nil())
            && behind == front,
        heap@.cons(obj) is None && obj != LispObject::nil() ==> front == Err::<
            LispObject,
            LispError,
        >(LispError::WrongType { predicate: QLISTP, value: obj }) && behind
            == front,
{
}

/// The length of a list is the number of its elements, and a list is a chain of cells that
/// ends with nil.
pub proof fn law_length(
    heap: &Heap,
    spine: Seq<LispObject>,
    items: Seq<LispObject>,
    len: Result<usize, LispError>,
    genuine: bool,
)
    requires
        heap@.holds(spine, items),
        call_ensures(length, (heap, spine[0]), len),
        call_ensures(genuine_list, (heap, spine[0]), genuine),
    ensures
        genuine == (spine.last() == LispObject::nil()),
        genuine ==> (len matches Ok(n) && n == items.len()),
        !genuine ==> len == Err::<usize, LispError>(
            LispError::WrongType { predicate: QLISTP, value: spine[0] },
        ),
{
    crate::laws::lists::law_chain(heap@, spine, items);
}

/// In a list, `assq` finds the first cell with the car KEY, and `memq` the tail whose car
/// is the first element that is KEY; both are nil where there is none.
pub proof fn law_searches(
    heap: &Heap,
    key: LispObject,
    spine: Seq<LispObject>,
    items: Seq<LispObject>,
    i: int,
    pair: Result<LispObject, LispError>,
    tail: Result<LispObject, LispError>,
)
    requires
        heap@.holds(spine, items),
        spine.last() == LispObject::nil(),
        call_ensures(assq, (heap, key, spine[0]), pair),
        call_ensures(memq, (heap, key, spine[0]), tail),
    ensures
        crate::laws::lists::first_pair(heap@, key, items, i) ==> pair == Ok::<
            LispObject,
            LispError,
        >(items[i]),
        (forall|k: int| 0 <= k < items.len() ==> !heap@.is_pair_of(key, #[trigger] items[k]))
            ==> pair == Ok::<LispObject, LispError>(LispObject::nil()),
        0 <= i < items.len() && items[i] == key && !items.take(i).contains(key) ==> tail == Ok::<
            LispObject,
            LispError,
        >(spine[i]),
        !items.contains(key) ==> tail == Ok::<LispObject, LispError>(LispObject::nil()),
{
    crate::laws::lists::law_assq(heap@, key, spine, items, i);
    crate::laws::lists::law_memq(heap@, key, spine, items, i);
}

/// A symbol in a variable list has no value form, (VAR) has the form nil, and (VAR FORM)
/// has FORM, whatever it is; more forms are refused, and so is what is no list.
pub proof fn law_element_call(heap: &Heap, obj: LispObject, binding: Result<LetBinding, LispError>)
    requires
        call_ensures(let_binding_value, (heap, obj), binding),
    ensures
        obj is Symbol ==> binding == Ok::<LetBinding, LispError>(LetBinding::Unset { var: obj }),
        heap@.cons(obj) matches Some(front) ==> binding == match heap@.cons(front.cdr) {
            Some(value) => if value.cdr == LispObject::nil() {
                Ok(LetBinding::Form { var: front.car, form: value.car })
            } else {
                Err(LispError::LetBinding { binding: obj })
            },
            None => if front.cdr == LispObject::nil() {
                Ok(LetBinding::Form { var: front.car, form: LispObject::nil() })
            } else {
                Err(LispError::WrongType { predicate: QCONSP, value: front.cdr })
            },
        },
        heap@.cons(obj) is None && !(obj is Symbol) ==> binding == Err::<LetBinding, LispError>(
            LispError::WrongType { predicate: QCONSP, value: obj },
        ),
{
}

/// An error is put in the form that `law_signal_data` and `law_signal_error` describe.
pub proof fn law_signal_call(
    heap: &mut Heap,
    other: &mut Heap,
    arg: LispObject,
    error: LispError,
    put: Signal,
    msg: &str,
    text: Signal,
)
    requires
        call_ensures(signal, (heap, error), put),
        call_ensures(signal_error, (other, msg, arg), text),
    ensures
        (final(heap)@, put) == old(heap)@.signal(error),
        (final(other)@, text) == old(other)@.error_signal(msg@, arg),
{
}

/// A new heap has no cell, no string and no vector; none of its symbols is defined or
/// special; binding is dynamic, and the purify flag is off. A new symbol is the last one,
/// neither defined nor special.
pub proof fn law_new(made: Heap, heap: &mut Heap, symbol: LispSymbolRef, id: usize)
    requires
        call_ensures(Heap::new, (), made),
        call_ensures(Heap::make_symbol, (heap,), symbol),
    ensures
        made@.conses.len() == 0 && made@.strings.len() == 0 && made@.vectorlikes.len() == 0,
        made@.function(id) == LispObject::nil() && !made@.special(id),
        made@.lexenv == LispObject::nil() && made@.purify_flag == LispObject::nil(),
        symbol.id == old(heap)@.symbols.len(),
        final(heap)@.symbols == old(heap)@.symbols.push(
            SymbolCell { function: LispObject::nil(), declared_special: false },
        ),
        final(heap)@.conses == old(heap)@.conses && final(heap)@.strings == old(heap)@.strings,
        final(heap)@.vectorlikes == old(heap)@.vectorlikes,
        final(heap)@.lexenv == old(heap)@.lexenv,
        final(heap)@.purify_flag == old(heap)@.purify_flag,
{
}

/// What is put on the heap is read from it: a new string is the last one and has its text,
/// a new vector is the last one and is what it was made as; nothing else changes.
pub proof fn law_strings_vectors(
    heap: &mut Heap,
    other: &mut Heap,
    before: &Heap,
    text: &str,
    string: LispObject,
    kind: Vectorlike,
    vector: LispObject,
    obj: LispObject,
    read: Option<&str>,
)
    requires
        old(heap)@.strings.len() < usize::MAX,
        old(other)@.vectorlikes.len() < usize::MAX,
        call_ensures(Heap::make_string, (heap, text), string),
        call_ensures(Heap::make_vectorlike, (other, kind), vector),
        call_ensures(Heap::string_at, (before, obj), read),
    ensures
        string == LispObject::Str(old(heap)@.strings.len() as usize),
        final(heap)@ == (Memory { strings: old(heap)@.strings.push(text@), ..old(heap)@ }),
        vector == LispObject::Vectorlike(old(other)@.vectorlikes.len() as usize),
        final(other)@ == (Memory {
            vectorlikes: old(other)@.vectorlikes.push(kind),
            ..old(other)@
        }),
        final(other)@.vectorlike(vector) == Some(kind),
        obj matches LispObject::Str(id) ==> id < before@.strings.len() ==> (read matches Some(s)
            && s@ == before@.strings[id as int]),
        obj matches LispObject::Str(id) ==> id >= before@.strings.len() ==> read is None,
        !(obj is Str) ==> read is None,
{
}

/// A cell is made of its two halves, and its cdr can be changed; a symbol can be given a
/// function definition, and a special flag. Each change makes that one difference.
pub proof fn law_cells_symbols(
    heap: &mut Heap,
    changed: &mut Heap,
    defined: &mut Heap,
    flagged: &mut Heap,
    before: &Heap,
    a: LispObject,
    b: LispObject,
    cell: LispObject,
    id: usize,
    special: bool,
    read: Option<Cons>,
)
    requires
        old(heap)@.conses.len() < usize::MAX,
        id < old(changed)@.conses.len(),
        id < old(defined)@.symbols.len(),
        id < old(flagged)@.symbols.len(),
        call_ensures(Heap::cons, (heap, a, b), cell),
        call_ensures(Heap::set_cdr, (changed, LispObject::Cons(id), b), ()),
        call_ensures(Heap::set_function, (defined, id, a), ()),
        call_ensures(Heap::set_declared_special, (flagged, id, special), ()),
        call_ensures(Heap::cons_at, (before, a), read),
    ensures
        cell == LispObject::Cons(old(heap)@.conses.len() as usize),
        final(heap)@ == (Memory {
            conses: old(heap)@.conses.push(Cons { car: a, cdr: b }),
            ..old(heap)@
        }),
        final(changed)@ == (Memory {
            conses: old(changed)@.conses.update(
                id as int,
                Cons { car: old(changed)@.conses[id as int].car, cdr: b },
            ),
            ..old(changed)@
        }),
        final(defined)@ == (Memory {
            symbols: old(defined)@.symbols.update(
                id as int,
                SymbolCell {
                    function: a,
                    declared_special: old(defined)@.symbols[id as int].declared_special,
                },
            ),
            ..old(defined)@
        }),
        final(flagged)@ == (Memory {
            symbols: old(flagged)@.symbols.update(
                id as int,
                SymbolCell {
                    function: old(flagged)@.symbols[id as int].function,
                    declared_special: special,
                },
            ),
            ..old(flagged)@
        }),
        read == match a {
            LispObject::Cons(place) if place < before@.conses.len() => Some(
                before@.conses[place as int],
            ),
            _ => None,
        },
{
}

/// The lexical environment and the purify flag are what they were last set to.
pub proof fn law_globals(
    heap: &mut Heap,
    other: &mut Heap,
    before: &Heap,
    obj: LispObject,
    lexenv: LispObject,
    flag: LispObject,
)
    requires
        call_ensures(Heap::set_lexenv, (heap, obj), ()),
        call_ensures(Heap::set_purify_flag, (other, obj), ()),
        call_ensures(Heap::lexenv, (before,), lexenv),
        call_ensures(Heap::purify_flag, (before,), flag),
    ensures
        final(heap)@ == (Memory { lexenv: obj, ..old(heap)@ }),
        final(other)@ == (Memory { purify_flag: obj, ..old(other)@ }),
        lexenv == before@.lexenv,
        flag == before@.purify_flag,
{
}

} // verus!

//! `let` and `let*`.
use vstd::prelude::*;
use crate::binding::LetBinding;
use crate::errors::LispError;
use crate::heap::{Cons, Memory};
use crate::machine::{After, Bindings, Frame, Request, Scope, Step};
use crate::object::{LispObject, QCONSP, QINTERNAL_INTERPRETER_ENVIRONMENT, QLISTP};

verus! {

/// An element of a variable list says what its cells hold: a symbol stands for itself,
/// without a value form; (VAR) stands for VAR and the form nil; (VAR FORM) stands for VAR
/// and FORM, whatever these are. More than one form is refused, and so is what is no
/// list.
pub proof fn law_element(m: Memory, obj: LispObject)
    ensures
        obj is Symbol ==> m.let_binding_value(obj) == Ok::<LetBinding, LispError>(
            LetBinding::Unset { var: obj },
        ),
        m.cons(obj) matches Some(front) ==> m.let_binding_value(obj) == match m.cons(front.cdr) {
            None => if front.cdr == LispObject::nil() {
                Ok(LetBinding::Form { var: front.car, form: LispObject::nil() })
            } else {
                Err(LispError::WrongType { predicate: QCONSP, value: front.cdr })
            },
            Some(value) => if value.cdr == LispObject::nil() {
                Ok(LetBinding::Form { var: front.car, form: value.car })
            } else {
                Err(LispError::LetBinding { binding: obj })
            },
        },
        m.cons(obj) is None && !(obj is Symbol) ==> m.let_binding_value(obj) == Err::<
            LetBinding,
            LispError,
        >(LispError::WrongType { predicate: QCONSP, value: obj }),
{
}

/// What is no symbol, or is special, or comes where lexical binding is not in force, is
/// bound dynamically, whatever the environment is.
pub proof fn law_dynamic(m: Memory, lexenv: LispObject, var: LispObject)
    ensures
        !(var is Symbol) ==> m.binds_lexically(lexenv, var) == Ok::<bool, LispError>(false),
        lexenv.is_nil() ==> m.binds_lexically(lexenv, var) == Ok::<bool, LispError>(false),
        var matches LispObject::Symbol(id) ==> m.special(id) ==> m.binds_lexically(lexenv, var)
            == Ok::<bool, LispError>(false),
{
}

/// Any other variable is bound lexically exactly if it is no element of the environment.
/// An environment that is no list is an error where it has to be searched to its end.
pub proof fn law_kind(
    m: Memory,
    lexenv: LispObject,
    id: usize,
    spine: Seq<LispObject>,
    items: Seq<LispObject>,
)
    requires
        m.holds(spine, items),
        m.lexenv == spine[0],
        !m.special(id),
        !lexenv.is_nil(),
    ensures
        m.binds_lexically(lexenv, LispObject::Symbol(id)) == if items.contains(
            LispObject::Symbol(id),
        ) {
            Ok(false)
        } else if spine.last() == LispObject::nil() {
            Ok(true)
        } else {
            Err(LispError::WrongType { predicate: QLISTP, value: m.lexenv })
        },
{
    let var = LispObject::Symbol(id);
    if items.contains(var) {
        let any = choose|i: int| 0 <= i < items.len() && items[i] == var;
        let i = lemma_first(items, var, any);
        crate::laws::lists::law_memq(m, var, spine, items, i);
        assert(m.cons(spine[i]) is Some);
    }
    crate::laws::lists::law_memq(m, var, spine, items, 0);
}

/// The same in an environment that goes round in a circle.
pub proof fn law_kind_circle(
    m: Memory,
    lexenv: LispObject,
    id: usize,
    spine: Seq<LispObject>,
    items: Seq<LispObject>,
    back: int,
)
    requires
        m.circles(spine, items, back),
        m.lexenv == spine[0],
        !m.special(id),
        !lexenv.is_nil(),
    ensures
        m.binds_lexically(lexenv, LispObject::Symbol(id)) == if items.contains(
            LispObject::Symbol(id),
        ) {
            Ok(false)
        } else {
            Err(LispError::CircularList { list: m.lexenv })
        },
{
    let var = LispObject::Symbol(id);
    if items.contains(var) {
        let any = choose|i: int| 0 <= i < items.len() && items[i] == var;
        let i = lemma_first(items, var, any);
        crate::laws::lists::law_memq_circle(m, var, spine, items, back, i);
        assert(m.cons(spine[i]) is Some);
    }
    crate::laws::lists::law_memq_circle(m, var, spine, items, back, 0);
}

/// Where an element is in a list, there is a first place where it is.
proof fn lemma_first(items: Seq<LispObject>, elt: LispObject, any: int) -> (i: int)
    requires
        0 <= any < items.len(),
        items[any] == elt,
    ensures
        0 <= i < items.len(),
        items[i] == elt,
        !items.take(i).contains(elt),
    decreases any,
{
    if items.take(any).contains(elt) {
        let k = choose|k: int| 0 <= k < any && items.take(any)[k] == elt;
        lemma_first(items, elt, k)
    } else {
        any
    }
}

/// A binding goes in front of the environment in two new cells: the pair of the variable
/// and the value, and the cell that holds the pair and leads to the old environment.
pub proof fn law_pair_in_front(m: Memory, var: LispObject, val: LispObject, lexenv: LispObject)
    requires
        m.conses.len() + 2 <= usize::MAX,
    ensures
        ({
            let (n, newenv) = m.extended(var, val, lexenv);
            let pair = LispObject::Cons(m.conses.len() as usize);
            &&& n.conses == m.conses.push(Cons { car: var, cdr: val }).push(
                Cons { car: pair, cdr: lexenv },
            )
            &&& newenv == LispObject::Cons((m.conses.len() + 1) as usize)
            &&& n.symbols == m.symbols && n.strings == m.strings && n.vectorlikes == m.vectorlikes
            &&& n.lexenv == m.lexenv && n.purify_flag == m.purify_flag
        }),
{
}

/// `let*` at an element lets the user quit, and keeps that element and what is behind it;
/// at the end of the list it goes on to its body. Once the user did not quit, it asks for
/// the value of the element's form, if it has one, and binds the variable to nil if it has
/// none; with the value, it binds the variable to that.
pub proof fn law_let_star_step(
    m: Memory,
    scope: Scope,
    binding: LispObject,
    var: LispObject,
    val: LispObject,
)
    ensures
        scope.rest == LispObject::nil() ==> m.let_star_step(scope) == m.progn_step(
            scope.body,
            LispObject::nil(),
            After::Unbind { count: scope.count },
        ),
        m.cons(scope.rest) is None && !scope.rest.is_nil() ==> m.let_star_step(scope)
            == crate::laws::steps::variables::no_list(scope.varlist),
        m.cons(scope.rest) is Some && m.list_end(scope.rest) is None ==> m.let_star_step(scope)
            == Step::Fail(LispError::CircularList { list: scope.varlist }),
        m.cons(scope.rest) matches Some(cell) ==> m.list_end(scope.rest) is Some
            ==> m.let_star_step(scope) == Step::Call(
            Request::MaybeQuit,
            Frame::LetStarPolled {
                scope: Scope { rest: cell.cdr, ..scope },
                binding: cell.car,
            },
        ),
        m.let_binding_value(binding) matches Err(error) ==> m.resumed(
            Frame::LetStarPolled { scope, binding },
            val,
        ) == (m, Step::Fail(error)),
        m.let_binding_value(binding) matches Ok(LetBinding::Form { var: v, form }) ==> m.resumed(
            Frame::LetStarPolled { scope, binding },
            val,
        ) == (m, Step::Call(Request::Eval { form }, Frame::LetStarValue { scope, var: v })),
        m.let_binding_value(binding) matches Ok(LetBinding::Unset { var: v }) ==> m.resumed(
            Frame::LetStarPolled { scope, binding },
            val,
        ) == m.resumed(Frame::LetStarValue { scope, var: v }, LispObject::nil()),
        m.resumed(Frame::LetStarBound { scope }, val) == (m, m.let_star_step(scope)),
{
}

/// `let*` with a value binds the variable to it: dynamically by a request, with nothing
/// changed on the heap; lexically by putting the pair in front of the current environment,
/// which is asked to be put in force if it is still that of the beginning, and is put in
/// force at once if it is not.
pub proof fn law_let_star_value(m: Memory, scope: Scope, var: LispObject, val: LispObject)
    ensures
        ({
            let frame = Frame::LetStarValue { scope, var };
            let (longer, newenv) = m.extended(var, val, m.lexenv);
            &&& m.resumed(frame, val) == m.let_star_bind(scope, var, val)
            &&& match m.binds_lexically(scope.lexenv, var) {
                Err(error) => m.resumed(frame, val) == (m, Step::Fail(error)),
                Ok(false) => m.resumed(frame, val) == (
                    m,
                    Step::Call(Request::Specbind { sym: var, val }, Frame::LetStarBound { scope }),
                ),
                Ok(true) => if m.lexenv == scope.lexenv {
                    m.resumed(frame, val) == (
                        longer,
                        Step::Call(
                            Request::Specbind {
                                sym: LispObject::Symbol(QINTERNAL_INTERPRETER_ENVIRONMENT),
                                val: newenv,
                            },
                            Frame::LetStarBound { scope },
                        ),
                    )
                } else {
                    let n = longer.with_lexenv(newenv);
                    m.resumed(frame, val) == (n, n.let_star_step(scope))
                },
            }
        }),
{
}

/// `let` at an element with a value form asks for its value, whatever the form is, and
/// keeps the variable, what is behind the element, and the values it has. At an element
/// without one it goes on as behind it, with nil for the value of that variable. At the
/// end of the list it makes the bindings in the order of the list.
pub proof fn law_let_step(
    m: Memory,
    scope: Scope,
    values: Bindings,
    reply: LispObject,
    v: LispObject,
)
    ensures
        scope.rest == LispObject::nil() ==> m.let_step(scope, values) == m.let_bind(
            scope.lexenv,
            values.reversed_onto(Bindings::Empty),
            scope.body,
            scope.count,
        ),
        m.cons(scope.rest) is None && !scope.rest.is_nil() ==> m.let_step(scope, values) == (
            m,
            crate::laws::steps::variables::no_list(scope.varlist),
        ),
        m.cons(scope.rest) is Some && m.list_end(scope.rest) is None ==> m.let_step(scope, values)
            == (m, Step::Fail(LispError::CircularList { list: scope.varlist })),
        m.cons(scope.rest) matches Some(cell) ==> m.list_end(scope.rest) is Some ==> ({
            let ahead = Scope { rest: cell.cdr, ..scope };
            m.let_step(scope, values) == match m.let_binding_value(cell.car) {
                Err(error) => (m, Step::Fail(error)),
                Ok(LetBinding::Unset { var }) => m.let_step(
                    ahead,
                    Bindings::Bind { var, val: LispObject::nil(), rest: Box::new(values) },
                ),
                Ok(LetBinding::Form { var, form }) => (
                    m,
                    Step::Call(
                        Request::Eval { form },
                        Frame::LetValue { scope: ahead, var, values },
                    ),
                ),
            }
        }),
        m.resumed(Frame::LetValue { scope, var: v, values }, reply) == m.let_step(
            scope,
            Bindings::Bind { var: v, val: reply, rest: Box::new(values) },
        ),
{
    if m.cons(scope.rest) is None {
        assert(m.ends_after(scope.rest, 0));
        crate::lists::lemma_list_end(m, scope.rest, 0);
    }
    if let Some(cell) = m.cons(scope.rest) {
        crate::lists::lemma_rest_end(m, scope.rest, cell.car, cell.cdr);
    }
}

/// `let` makes its bindings one after the other: a lexical one goes in front of the
/// environment that it gathers, and the next one follows at once; a dynamic one is asked
/// for, with nothing changed on the heap. After the last one the environment is asked to
/// be put in force, unless it is, and the body begins.
pub proof fn law_let_bind_step(
    m: Memory,
    lexenv: LispObject,
    pending: Bindings,
    body: LispObject,
    count: i64,
    reply: LispObject,
)
    ensures
        ({
            let entered = m.progn_step(body, LispObject::nil(), After::Unbind { count });
            &&& m.let_bind(m.lexenv, Bindings::Empty, body, count) == (m, entered)
            &&& lexenv != m.lexenv ==> m.let_bind(lexenv, Bindings::Empty, body, count) == (
                m,
                Step::Call(
                    Request::Specbind {
                        sym: LispObject::Symbol(QINTERNAL_INTERPRETER_ENVIRONMENT),
                        val: lexenv,
                    },
                    Frame::LetEntered { body, count },
                ),
            )
            &&& m.resumed(Frame::LetEntered { body, count }, reply) == (m, entered)
            &&& m.resumed(Frame::LetBound { lexenv, pending, body, count }, reply) == m.let_bind(
                lexenv,
                pending,
                body,
                count,
            )
        }),
        pending matches Bindings::Bind { var, val, rest } ==> m.let_bind(
            lexenv,
            pending,
            body,
            count,
        ) == match m.binds_lexically(lexenv, var) {
            Err(error) => (m, Step::Fail(error)),
            Ok(true) => {
                let (n, newenv) = m.extended(var, val, lexenv);
                n.let_bind(newenv, *rest, body, count)
            },
            Ok(false) => (
                m,
                Step::Call(
                    Request::Specbind { sym: var, val },
                    Frame::LetBound { lexenv, pending: *rest, body, count },
                ),
            ),
        },
{
}

/// To turn bindings round is to take them from the last one to the first one.
pub proof fn law_reversed(bindings: Bindings, tail: Bindings)
    ensures
        bindings.reversed_onto(tail).pairs() == bindings.pairs().reverse() + tail.pairs(),
    decreases bindings,
{
    match bindings {
        Bindings::Empty => {
            assert(bindings.pairs().reverse() + tail.pairs() =~= tail.pairs());
        },
        Bindings::Bind { var, val, rest } => {
            let next = Bindings::Bind { var, val, rest: Box::new(tail) };
            law_reversed(*rest, next);
            assert(rest.pairs().reverse() + next.pairs() =~= bindings.pairs().reverse()
                + tail.pairs());
        },
    }
}

} // verus!

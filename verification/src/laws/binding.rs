//! `let` and `let*` over a whole run.
use vstd::prelude::*;
use crate::binding::LetBinding;
use crate::errors::LispError;
use crate::heap::{Cons, Memory};
use crate::machine::{After, Bindings, Frame, Request, Scope, Step};
use crate::object::{LispObject, QINTERNAL_INTERPRETER_ENVIRONMENT};
use crate::trace::Answer;

verus! {

/// A variable that is declared special is never bound lexically: `let` and `let*`
/// ask for a dynamic binding, whatever the lexical environment is.
pub proof fn law_special_is_dynamic(
    m: Memory,
    id: usize,
    val: LispObject,
    scope: Scope,
    lexenv: LispObject,
    rest: Bindings,
    body: LispObject,
    count: i64,
)
    requires
        m.special(id),
    ensures
        m.let_star_bind(scope, LispObject::Symbol(id), val) == (
            m,
            Step::Call(
                Request::Specbind { sym: LispObject::Symbol(id), val },
                Frame::LetStarBound { scope },
            ),
        ),
        m.let_bind(
            lexenv,
            Bindings::Bind { var: LispObject::Symbol(id), val, rest: Box::new(rest) },
            body,
            count,
        ) == (
            m,
            Step::Call(
                Request::Specbind { sym: LispObject::Symbol(id), val },
                Frame::LetBound { lexenv, pending: rest, body, count },
            ),
        ),
{
}

/// In an environment with one more binding in front, the variable of that binding
/// has its value, and every other variable is looked up as before.
pub proof fn law_extended_lookup(
    m: Memory,
    var: LispObject,
    val: LispObject,
    lexenv: LispObject,
    other: LispObject,
)
    requires
        m.well_formed(),
        m.has(var),
        m.has(val),
        m.has(lexenv),
        m.conses.len() + 2 <= usize::MAX,
    ensures
        ({
            let (n, newenv) = m.extended(var, val, lexenv);
            &&& n.assq(var, newenv) matches Ok(pair) && n.cons(pair) == Some(
                Cons { car: var, cdr: val },
            )
            &&& other != var ==> n.assq(other, newenv) == searched(m.assq(other, lexenv), newenv)
            &&& n.extends(m)
        }),
{
    let (p, pair) = m.consed(var, val);
    let (n, newenv) = p.consed(pair, lexenv);
    crate::laws::memory::lemma_consed(m, var, val);
    crate::laws::memory::lemma_consed(p, pair, lexenv);
    assert(n.cons(pair) == Some(Cons { car: var, cdr: val }));
    lemma_in_front(n, newenv, pair, lexenv, var);
    lemma_in_front(n, newenv, pair, lexenv, other);
    crate::laws::memory::lemma_extended_assq(n, m, other, lexenv);
}

impl Bindings {
    /// The bindings without the first `n`.
    pub open spec fn skip(self, n: nat) -> Bindings
        decreases self,
    {
        match self {
            Bindings::Bind { rest, .. } if n > 0 => rest.skip((n - 1) as nat),
            _ => self,
        }
    }
}

impl Memory {
    /// The elements `items` of a variable list say what `decls` tells.
    pub open spec fn declares(self, items: Seq<LispObject>, decls: Seq<LetBinding>) -> bool {
        &&& decls.len() == items.len()
        &&& forall|i: int|
            0 <= i < items.len() ==> self.let_binding_value(#[trigger] items[i]) == Ok::<
                LetBinding,
                LispError,
            >(decls[i])
    }

    /// The memory with the first `k` of the bindings `pending` in front of `lexenv`,
    /// one after the other, and that environment.
    pub open spec fn extended_by(self, lexenv: LispObject, pending: Bindings, k: nat) -> (
        Memory,
        LispObject,
    )
        decreases pending,
    {
        match pending {
            Bindings::Bind { var, val, rest } if k > 0 => {
                let (m, newenv) = self.extended(var, val, lexenv);
                m.extended_by(newenv, *rest, (k - 1) as nat)
            },
            _ => (self, lexenv),
        }
    }

    /// The first `k` variables of `pending` are to be bound lexically.
    pub open spec fn lexical_up_to(self, lexenv: LispObject, pending: Bindings, k: nat) -> bool {
        forall|i: int|
            0 <= i < k ==> self.binds_lexically(lexenv, (#[trigger] pending.pairs()[i]).0) == Ok::<
                bool,
                LispError,
            >(true)
    }
}

/// The value that the last of the `pairs` for `sym` gives it.
pub open spec fn last_value(pairs: Seq<(LispObject, LispObject)>, sym: LispObject) -> Option<
    LispObject,
>
    decreases pairs.len(),
{
    if pairs.len() == 0 {
        None
    } else if pairs.last().0 == sym {
        Some(pairs.last().1)
    } else {
        last_value(pairs.drop_last(), sym)
    }
}

/// `let` makes its bindings in order. Those that are lexical up to the next dynamic
/// one go in front of the environment that it gathers; the dynamic one is asked for.
/// After the last one, the environment is asked to be put in force if it is another
/// than the current one, and the body begins. Until that is done the old environment
/// is in force, and no cell of it changes.
pub proof fn law_let_bindings(
    m: Memory,
    lexenv: LispObject,
    pending: Bindings,
    body: LispObject,
    count: i64,
    k: nat,
)
    requires
        m.well_formed(),
        m.has(lexenv),
        pending.within(m),
        k <= pending.pairs().len(),
        m.lexical_up_to(lexenv, pending, k),
        k < pending.pairs().len() ==> m.binds_lexically(lexenv, pending.pairs()[k as int].0)
            == Ok::<bool, LispError>(false),
        m.conses.len() + 2 * k <= usize::MAX,
    ensures
        ({
            let (n, newenv) = m.extended_by(lexenv, pending, k);
            &&& n.extends(m)
            &&& n.lexenv == m.lexenv
            &&& n.symbols == m.symbols
            &&& m.let_bind(lexenv, pending, body, count) == (
                n,
                if k < pending.pairs().len() {
                    let (var, val) = pending.pairs()[k as int];
                    Step::Call(
                        Request::Specbind { sym: var, val },
                        Frame::LetBound {
                            lexenv: newenv,
                            pending: pending.skip(k + 1),
                            body,
                            count,
                        },
                    )
                } else if newenv != m.lexenv {
                    Step::Call(
                        Request::Specbind {
                            sym: LispObject::Symbol(QINTERNAL_INTERPRETER_ENVIRONMENT),
                            val: newenv,
                        },
                        Frame::LetEntered { body, count },
                    )
                } else {
                    n.progn_step(body, LispObject::nil(), After::Unbind { count })
                },
            )
        }),
    decreases pending,
{
    lemma_skip(pending, k);
    if let Bindings::Bind { var, val, rest } = pending {
        assert(pending.pairs()[0] == (var, val));
        if k > 0 {
            let (p, pair) = m.consed(var, val);
            let (n, newenv) = p.consed(pair, lexenv);
            crate::laws::memory::lemma_consed(m, var, val);
            crate::laws::memory::lemma_consed(p, pair, lexenv);
            assert(m.extended(var, val, lexenv) == (n, newenv));
            crate::laws::memory::lemma_bindings_later(*rest, m, n);
            assert(m.binds_lexically(lexenv, var) == Ok::<bool, LispError>(true));
            assert forall|i: int| 0 <= i < rest.pairs().len() implies n.binds_lexically(
                newenv,
                (#[trigger] rest.pairs()[i]).0,
            ) == m.binds_lexically(lexenv, pending.pairs()[i + 1].0) by {
                assert(rest.pairs()[i] == pending.pairs()[i + 1]);
                lemma_binds_later(n, m, newenv, lexenv, rest.pairs()[i].0);
            }
            lemma_skip(*rest, (k - 1) as nat);
            law_let_bindings(n, newenv, *rest, body, count, (k - 1) as nat);
        } else {
            reveal_with_fuel(Bindings::skip, 2);
        }
    }
}

/// In the environment that `let` gathers, a variable of the `let` has its new value,
/// the last one if it occurs several times; every other variable is looked up as
/// before.
pub proof fn law_let_environment(
    m: Memory,
    lexenv: LispObject,
    pending: Bindings,
    k: nat,
    sym: LispObject,
)
    requires
        m.well_formed(),
        m.has(lexenv),
        pending.within(m),
        0 < k <= pending.pairs().len(),
        m.conses.len() + 2 * k <= usize::MAX,
    ensures
        ({
            let (n, newenv) = m.extended_by(lexenv, pending, k);
            &&& n.extends(m)
            &&& match last_value(pending.pairs().take(k as int), sym) {
                Some(val) => n.assq(sym, newenv) matches Ok(pair) && n.cons(pair) == Some(
                    Cons { car: sym, cdr: val },
                ),
                None => n.assq(sym, newenv) == searched(m.assq(sym, lexenv), newenv),
            }
        }),
    decreases pending,
{
    if let Bindings::Bind { var, val, rest } = pending {
        let (p, pair) = m.consed(var, val);
        let (n, newenv) = p.consed(pair, lexenv);
        crate::laws::memory::lemma_consed(m, var, val);
        crate::laws::memory::lemma_consed(p, pair, lexenv);
        assert(m.extended(var, val, lexenv) == (n, newenv));
        crate::laws::memory::lemma_bindings_later(*rest, m, n);
        law_extended_lookup(m, var, val, lexenv, sym);
        let pairs = pending.pairs().take(k as int);
        assert(pairs =~= seq![(var, val)] + rest.pairs().take(k - 1));
        lemma_last_value(var, val, rest.pairs().take(k - 1), sym);
        if k > 1 {
            law_let_environment(n, newenv, *rest, (k - 1) as nat, sym);
            let (last, env) = n.extended_by(newenv, *rest, (k - 1) as nat);
            crate::laws::memory::lemma_extended_assq(last, n, sym, newenv);
            let found = n.assq(sym, newenv);
            if found is Ok && n.cons(found->Ok_0) is Some {
                crate::laws::memory::lemma_extended_tail(last, n, found->Ok_0, 0);
            }
        } else {
            assert(n.extended_by(newenv, *rest, 0) == (n, newenv));
            assert(rest.pairs().take(0) =~= Seq::<(LispObject, LispObject)>::empty());
        }
    }
}

/// How many of the elements of a variable list have a value form.
pub open spec fn forms(decls: Seq<LetBinding>) -> nat
    decreases decls.len(),
{
    if decls.len() == 0 {
        0
    } else {
        forms(decls.drop_last()) + if decls.last() is Form {
            1nat
        } else {
            0nat
        }
    }
}

/// The variables of a variable list with their values: those with a value form have
/// the answers, in order, the others nil.
pub open spec fn declared(decls: Seq<LetBinding>, answers: Seq<Answer>) -> Seq<
    (LispObject, LispObject),
>
    decreases decls.len(),
{
    if decls.len() == 0 {
        Seq::empty()
    } else {
        let earlier = declared(decls.drop_last(), answers);
        match decls.last() {
            LetBinding::Unset { var } => earlier.push((var, LispObject::nil())),
            LetBinding::Form { var, .. } => earlier.push(
                (var, answers[forms(decls.drop_last()) as int].reply),
            ),
        }
    }
}

/// The same, as `let` gathers them: the last one first.
pub open spec fn gathered(decls: Seq<LetBinding>, answers: Seq<Answer>) -> Bindings
    decreases decls.len(),
{
    if decls.len() == 0 {
        Bindings::Empty
    } else {
        let rest = Box::new(gathered(decls.drop_last(), answers));
        match decls.last() {
            LetBinding::Unset { var } => Bindings::Bind { var, val: LispObject::nil(), rest },
            LetBinding::Form { var, .. } => Bindings::Bind {
                var,
                val: answers[forms(decls.drop_last()) as int].reply,
                rest,
            },
        }
    }
}

/// `let` evaluates the value forms of its variable list in order and asks for
/// nothing else on the way; with all the values, and not before, it goes on to bind
/// the variables, each to its own value. `p` is the place of the next value form in
/// the list, or the end of the list.
pub proof fn law_let_values(
    m: Memory,
    spine: Seq<LispObject>,
    items: Seq<LispObject>,
    decls: Seq<LetBinding>,
    body: LispObject,
    count: i64,
    p: int,
    answers: Seq<Answer>,
)
    requires
        m.holds(spine, items),
        spine.last().is_nil(),
        crate::trace::kept(answers, spine, items),
        m.declares(items, decls),
        forall|k: int|
            0 <= k < answers.len() ==> (#[trigger] answers[k]).memory.declares(items, decls),
        0 <= p <= items.len(),
        p < items.len() ==> decls[p] is Form,
        answers.len() == forms(decls.take(p)),
    ensures
        ({
            let scope = Scope {
                varlist: spine[0],
                rest: spine[0],
                body,
                lexenv: m.lexenv,
                count,
            };
            let here = if answers.len() > 0 {
                answers.last().memory
            } else {
                m
            };
            let known = gathered(decls.take(p), answers);
            m.let_step(scope, Bindings::Empty).1.after(answers) == if p < items.len() {
                Step::Call(
                    Request::Eval { form: decls[p]->form },
                    Frame::LetValue {
                        scope: Scope { rest: spine[p + 1], ..scope },
                        var: decls[p]->Form_var,
                        values: known,
                    },
                )
            } else {
                here.let_bind(m.lexenv, known.reversed_onto(Bindings::Empty), body, count).1
            }
        }),
        gathered(decls.take(p), answers).reversed_onto(Bindings::Empty).pairs() == declared(
            decls.take(p),
            answers,
        ),
    decreases answers.len(),
{
    let scope = Scope { varlist: spine[0], rest: spine[0], body, lexenv: m.lexenv, count };
    lemma_gathered_pairs(decls.take(p), answers, Bindings::Empty);
    assert(declared(decls.take(p), answers) + Bindings::Empty.pairs() =~= declared(
        decls.take(p),
        answers,
    ));
    let start = m.let_step(scope, Bindings::Empty).1;
    if answers.len() == 0 {
        assert forall|j: int| 0 <= j < p implies !(#[trigger] decls[j] is Form) by {
            lemma_no_form(decls, p, j);
        }
        assert(gathered(decls.take(0), answers) == Bindings::Empty);
        lemma_let_walk(m, spine, items, decls, scope, 0, p, answers);
    } else {
        let before = answers.drop_last();
        let last = answers[answers.len() - 1];
        let q = lemma_previous_form(decls, p);
        assert forall|k: int| 0 <= k < before.len() implies (
        #[trigger] before[k]).memory.declares(items, decls) && before[k].memory.holds(
            spine,
            items,
        ) by {
            assert(before[k] == answers[k]);
        }
        law_let_values(m, spine, items, decls, body, count, q, before);
        assert(last.memory.holds(spine, items));
        assert(last.memory.declares(items, decls));
        lemma_gathered_earlier(decls.take(q), before, answers);
        assert(decls.take(q + 1).drop_last() =~= decls.take(q));
        assert(gathered(decls.take(q + 1), answers) == Bindings::Bind {
            var: decls[q]->Form_var,
            val: last.reply,
            rest: Box::new(gathered(decls.take(q), before)),
        });
        let frame = Frame::LetValue {
            scope: Scope { rest: spine[q + 1], ..scope },
            var: decls[q]->Form_var,
            values: gathered(decls.take(q), before),
        };
        assert(start.after(before) == Step::Call(Request::Eval { form: decls[q]->form }, frame));
        assert(start.after(answers) == last.memory.resumed(frame, last.reply).1);
        assert(last.memory.resumed(frame, last.reply) == last.memory.let_step(
            Scope { rest: spine[q + 1], ..scope },
            gathered(decls.take(q + 1), answers),
        ));
        lemma_let_walk(last.memory, spine, items, decls, scope, q + 1, p, answers);
    }
}

/// Once `let` has asked for a binding, it asks for no value of its variable list any
/// more, whatever is answered: all the value forms are evaluated before any variable
/// is bound.
pub proof fn law_let_order(
    m: Memory,
    scope: Scope,
    first: Seq<Answer>,
    second: Seq<Answer>,
)
    requires
        m.let_step(scope, Bindings::Empty).1.after(first) matches Step::Call(
            Request::Specbind { .. },
            _,
        ),
    ensures
        !(m.let_step(scope, Bindings::Empty).1.after(first + second) matches Step::Call(
            _,
            Frame::LetValue { .. },
        )),
{
    let start = m.let_step(scope, Bindings::Empty).1;
    lemma_let_starts(m, scope, Bindings::Empty);
    lemma_in_let(start, scope.count, first);
    lemma_let_bound(start.after(first), scope.count, second);
    crate::trace::lemma_after_split(start, first, second);
}

/// The answer `k` is what came of undoing the dynamic bindings above the depth
/// `count`, and the run that began with `start` returns it.
pub open spec fn returns_unbound(start: Step, count: i64, answers: Seq<Answer>, k: int) -> bool {
    &&& 0 <= k < answers.len()
    &&& start.after(answers) == Step::Done(answers[k].reply)
    &&& start.after(answers.take(k)) matches Step::Call(
        Request::UnbindTo { count: c, .. },
        Frame::Return,
    ) && c == count
}

/// `let` returns only once the dynamic bindings above its own depth are undone,
/// whatever is answered on the way, and what it returns is what comes of that.
pub proof fn law_let_unbinds(m: Memory, scope: Scope, answers: Seq<Answer>)
    requires
        m.let_step(scope, Bindings::Empty).1.after(answers) is Done,
    ensures
        exists|k: int|
            returns_unbound(m.let_step(scope, Bindings::Empty).1, scope.count, answers, k),
{
    lemma_let_starts(m, scope, Bindings::Empty);
    let k = lemma_unbinds(m.let_step(scope, Bindings::Empty).1, scope.count, answers);
}

/// So does `let*`.
pub proof fn law_let_star_unbinds(m: Memory, scope: Scope, answers: Seq<Answer>)
    requires
        m.let_star_step(scope).after(answers) is Done,
    ensures
        exists|k: int| returns_unbound(m.let_star_step(scope), scope.count, answers, k),
{
    let k = lemma_unbinds(m.let_star_step(scope), scope.count, answers);
}

/// With dynamic binding, `let` asks for its bindings in order, one after the other,
/// each with its value, and goes on to its body after the last one.
pub proof fn law_let_dynamic(
    m: Memory,
    pending: Bindings,
    body: LispObject,
    count: i64,
    answers: Seq<Answer>,
)
    requires
        m.lexenv.is_nil(),
        forall|k: int| 0 <= k < answers.len() ==> (#[trigger] answers[k]).memory.lexenv.is_nil(),
        answers.len() <= pending.pairs().len(),
    ensures
        m.let_bind(LispObject::nil(), pending, body, count).1.after(answers) == if answers.len()
            < pending.pairs().len() {
            let (var, val) = pending.pairs()[answers.len() as int];
            Step::Call(
                Request::Specbind { sym: var, val },
                Frame::LetBound {
                    lexenv: LispObject::nil(),
                    pending: pending.skip(answers.len() + 1),
                    body,
                    count,
                },
            )
        } else {
            let here = if answers.len() > 0 {
                answers.last().memory
            } else {
                m
            };
            here.progn_step(body, LispObject::nil(), After::Unbind { count })
        },
        forall|k: nat|
            k <= pending.pairs().len() ==> #[trigger] pending.skip(k).pairs()
                == pending.pairs().skip(k as int),
{
    assert forall|k: nat| k <= pending.pairs().len() implies #[trigger] pending.skip(k).pairs()
        == pending.pairs().skip(k as int) by {
        lemma_skip(pending, k);
    }
    lemma_let_dynamic(m, pending, body, count, answers);
    lemma_skip(pending, answers.len());
}

/// The memory in which `let*` binds the variable of an element of its variable list:
/// the one that comes with the value, if there is a value form.
pub open spec fn star_memory(decl: LetBinding, answers: Seq<Answer>) -> Memory {
    if decl is Form {
        answers[1].memory
    } else {
        answers[0].memory
    }
}

/// The value that the variable gets.
pub open spec fn star_value(decl: LetBinding, answers: Seq<Answer>) -> LispObject {
    if decl is Form {
        answers[1].reply
    } else {
        LispObject::nil()
    }
}

/// The binding is lexical, and not the first lexical one: it is made at once.
pub open spec fn star_at_once(decl: LetBinding, scope: Scope, answers: Seq<Answer>) -> bool {
    let m = star_memory(decl, answers);
    m.binds_lexically(scope.lexenv, decl.var()) == Ok::<bool, LispError>(true) && m.lexenv
        != scope.lexenv
}

/// How many answers an element takes: that the user did not quit, the value if there
/// is a value form, and that the variable is bound if that is not done at once.
pub open spec fn star_asked(decl: LetBinding, scope: Scope, answers: Seq<Answer>) -> nat {
    1nat + (if decl is Form {
        1nat
    } else {
        0nat
    }) + (if star_at_once(decl, scope, answers) {
        0nat
    } else {
        1nat
    })
}

/// The memory in which `let*` goes on after an element.
pub open spec fn star_after(decl: LetBinding, scope: Scope, answers: Seq<Answer>) -> Memory {
    if star_at_once(decl, scope, answers) {
        star_memory(decl, answers).let_star_bind(
            scope,
            decl.var(),
            star_value(decl, answers),
        ).0
    } else {
        answers[star_asked(decl, scope, answers) - 1].memory
    }
}

/// `let*` at an element of its variable list: the user may quit, the value form is
/// evaluated if there is one, and the variable is bound to its value, nil without a
/// value form; only after that comes the next element.
pub proof fn law_let_star_element(
    m: Memory,
    spine: Seq<LispObject>,
    items: Seq<LispObject>,
    i: int,
    scope: Scope,
    decl: LetBinding,
    answers: Seq<Answer>,
)
    requires
        m.holds(spine, items),
        0 <= i < items.len(),
        answers.len() >= star_asked(decl, scope, answers),
        answers[0].memory.let_binding_value(items[i]) == Ok::<LetBinding, LispError>(decl),
        star_memory(decl, answers).binds_lexically(scope.lexenv, decl.var()) is Ok,
    ensures
        ({
            let start = m.let_star_step(Scope { rest: spine[i], ..scope });
            let next = Scope { rest: spine[i + 1], ..scope };
            let bound = star_memory(decl, answers).let_star_bind(
                next,
                decl.var(),
                star_value(decl, answers),
            ).1;
            &&& start == Step::Call(
                Request::MaybeQuit,
                Frame::LetStarPolled { scope: next, binding: items[i] },
            )
            &&& decl matches LetBinding::Form { var, form } ==> start.after(answers.take(1))
                == Step::Call(Request::Eval { form }, Frame::LetStarValue { scope: next, var })
            &&& start.after(
                answers.take(
                    if decl is Form {
                        2
                    } else {
                        1
                    },
                ),
            ) == bound
            &&& !star_at_once(decl, scope, answers) ==> (bound matches Step::Call(
                Request::Specbind { .. },
                frame,
            ) && frame == (Frame::LetStarBound { scope: next }))
            &&& start.after(answers.take(star_asked(decl, scope, answers) as int)) == star_after(
                decl,
                scope,
                answers,
            ).let_star_step(next)
        }),
{
    let start = m.let_star_step(Scope { rest: spine[i], ..scope });
    let next = Scope { rest: spine[i + 1], ..scope };
    crate::trace::lemma_holds_end(m, spine, items, i);
    assert(m.cons(spine[i]) is Some);
    assert(answers.take(0) =~= Seq::<Answer>::empty());
    crate::trace::lemma_one_more(start, answers, 0);
    if decl is Form {
        crate::trace::lemma_one_more(start, answers, 1);
    }
    if !star_at_once(decl, scope, answers) {
        crate::trace::lemma_one_more(
            start,
            answers,
            if decl is Form {
                2
            } else {
                1
            },
        );
    }
}

/// How many answers `let*` takes for the first `p` elements of its variable list.
pub open spec fn stars_asked(
    decls: Seq<LetBinding>,
    scope: Scope,
    answers: Seq<Answer>,
    p: nat,
) -> nat
    decreases p,
{
    if p == 0 {
        0
    } else {
        let a = stars_asked(decls, scope, answers, (p - 1) as nat);
        a + star_asked(decls[p - 1], scope, answers.skip(a as int))
    }
}

/// The memory in which `let*`, begun in `m`, comes to the element `p`.
pub open spec fn stars_after(
    m: Memory,
    decls: Seq<LetBinding>,
    scope: Scope,
    answers: Seq<Answer>,
    p: nat,
) -> Memory {
    if p == 0 {
        m
    } else {
        let a = stars_asked(decls, scope, answers, (p - 1) as nat);
        star_after(decls[p - 1], scope, answers.skip(a as int))
    }
}

/// `let*` takes the elements of its variable list in order: it comes to the element
/// `p` when the elements before that are done, and to its body at the end of the list.
pub proof fn law_let_star(
    m: Memory,
    spine: Seq<LispObject>,
    items: Seq<LispObject>,
    decls: Seq<LetBinding>,
    scope: Scope,
    p: nat,
    answers: Seq<Answer>,
)
    requires
        m.holds(spine, items),
        spine.last().is_nil(),
        crate::trace::kept(answers, spine, items),
        decls.len() == items.len(),
        forall|k: int|
            0 <= k < answers.len() ==> (#[trigger] answers[k]).memory.declares(items, decls),
        forall|k: int, i: int|
            0 <= k < answers.len() && 0 <= i < decls.len() ==> (
            #[trigger] answers[k]).memory.binds_lexically(
                scope.lexenv,
                (#[trigger] decls[i]).var(),
            ) is Ok,
        p <= items.len(),
        stars_asked(decls, scope, answers, p) <= answers.len(),
    ensures
        ({
            let start = m.let_star_step(Scope { rest: spine[0], ..scope });
            let here = stars_after(m, decls, scope, answers, p);
            let run = start.after(answers.take(stars_asked(decls, scope, answers, p) as int));
            &&& here.holds(spine, items)
            &&& run == here.let_star_step(Scope { rest: spine[p as int], ..scope })
            &&& p == items.len() ==> run == here.progn_step(
                scope.body,
                LispObject::nil(),
                After::Unbind { count: scope.count },
            )
        }),
    decreases p,
{
    let start = m.let_star_step(Scope { rest: spine[0], ..scope });
    if p == 0 {
        assert(answers.take(0) =~= Seq::<Answer>::empty());
    } else {
        let q = (p - 1) as nat;
        let a = stars_asked(decls, scope, answers, q) as int;
        let decl = decls[q as int];
        let later = answers.skip(a);
        let n = star_asked(decl, scope, later) as int;
        law_let_star(m, spine, items, decls, scope, q, answers);
        let here = stars_after(m, decls, scope, answers, q);
        assert(later[0] == answers[a]);
        assert(answers[a].memory.declares(items, decls));
        assert(answers[a].memory.let_binding_value(items[q as int]) == Ok::<LetBinding, LispError>(
            decl,
        ));
        assert(star_memory(decl, later).binds_lexically(scope.lexenv, decl.var()) is Ok) by {
            if decl is Form {
                assert(later[1] == answers[a + 1]);
            }
            assert(decls[q as int] == decl);
        }
        law_let_star_element(here, spine, items, q as int, scope, decl, later);
        assert(answers.take(a + n) =~= answers.take(a) + later.take(n));
        crate::trace::lemma_after_split(start, answers.take(a), later.take(n));
        lemma_star_holds(spine, items, decl, scope, answers, a);
    }
}

/// The variable list is there after an element.
proof fn lemma_star_holds(
    spine: Seq<LispObject>,
    items: Seq<LispObject>,
    decl: LetBinding,
    scope: Scope,
    answers: Seq<Answer>,
    a: int,
)
    requires
        spine.last().is_nil(),
        crate::trace::kept(answers, spine, items),
        0 <= a,
        a + star_asked(decl, scope, answers.skip(a)) <= answers.len(),
    ensures
        star_after(decl, scope, answers.skip(a)).holds(spine, items),
{
    let later = answers.skip(a);
    let n = star_asked(decl, scope, later) as int;
    if star_at_once(decl, scope, later) {
        let m = star_memory(decl, later);
        assert(m == answers[if decl is Form {
            a + 1
        } else {
            a
        }].memory);
        assert(m.holds(spine, items));
        let bound = star_after(decl, scope, later);
        assert forall|i: int| 0 <= i < items.len() implies bound.cons(#[trigger] spine[i]) == Some(
            Cons { car: items[i], cdr: spine[i + 1] },
        ) by {
            assert(m.cons(spine[i]) == Some(Cons { car: items[i], cdr: spine[i + 1] }));
        }
        assert(spine[items.len() as int] == spine.last());
    } else {
        assert(later[n - 1] == answers[a + n - 1]);
    }
}

/// With lexical binding, `let*` puts each binding in front of the environment before
/// it goes on, so that each value form sees the variables bound earlier: the first
/// binding asks for the longer environment to be put in force until the end, the
/// later ones put it in force at once. In the longer environment the variable has
/// its value, and every other variable is looked up as before.
pub proof fn law_let_star_lexical(
    m: Memory,
    scope: Scope,
    var: LispObject,
    val: LispObject,
    other: LispObject,
)
    requires
        m.well_formed(),
        m.has(var),
        m.has(val),
        m.conses.len() + 2 <= usize::MAX,
        m.binds_lexically(scope.lexenv, var) == Ok::<bool, LispError>(true),
    ensures
        ({
            let (n, step) = m.let_star_bind(scope, var, val);
            let newenv = m.extended(var, val, m.lexenv).1;
            &&& if m.lexenv == scope.lexenv {
                n.lexenv == m.lexenv && step == Step::Call(
                    Request::Specbind {
                        sym: LispObject::Symbol(QINTERNAL_INTERPRETER_ENVIRONMENT),
                        val: newenv,
                    },
                    Frame::LetStarBound { scope },
                )
            } else {
                n.lexenv == newenv && step == n.let_star_step(scope)
            }
            &&& n.extends(m)
            &&& n.assq(var, newenv) matches Ok(pair) && n.cons(pair) == Some(
                Cons { car: var, cdr: val },
            )
            &&& other != var ==> n.assq(other, newenv) == searched(m.assq(other, m.lexenv), newenv)
        }),
{
    crate::laws::memory::lemma_roots(m);
    law_extended_lookup(m, var, val, m.lexenv, other);
    let (n, newenv) = m.extended(var, val, m.lexenv);
    if m.lexenv != scope.lexenv {
        let p = n.with_lexenv(newenv);
        crate::laws::memory::lemma_consed(m, var, val);
        let (m1, pair) = m.consed(var, val);
        crate::laws::memory::lemma_consed(m1, pair, m.lexenv);
        assert(p.extends(n));
        crate::laws::memory::lemma_extended_assq(p, n, var, newenv);
        crate::laws::memory::lemma_extended_assq(p, n, other, newenv);
    }
}

/// The body of `let` and `let*` is evaluated form by form; the value of the last form
/// is handed over when the dynamic bindings are undone, and what comes back is
/// returned.
pub proof fn law_let_body(
    m: Memory,
    spine: Seq<LispObject>,
    items: Seq<LispObject>,
    count: i64,
    answers: Seq<Answer>,
)
    requires
        m.holds(spine, items),
        answers.len() == items.len() + 1,
        crate::trace::kept(answers.drop_last(), spine, items),
    ensures
        ({
            let start = m.progn_step(spine[0], LispObject::nil(), After::Unbind { count });
            &&& start.after(answers.drop_last()) == Step::Call(
                Request::UnbindTo {
                    count,
                    val: if items.len() > 0 {
                        answers[items.len() - 1].reply
                    } else {
                        LispObject::nil()
                    },
                },
                Frame::Return,
            )
            &&& start.after(answers) == Step::Done(answers.last().reply)
        }),
{
    crate::laws::control::law_body(
        m,
        spine,
        items,
        After::Unbind { count },
        answers.drop_last(),
    );
}

/// No two elements of a variable list are for the same variable.
pub open spec fn distinct_variables(decls: Seq<LetBinding>) -> bool {
    forall|i: int, j: int|
        0 <= i < j < decls.len() ==> (#[trigger] decls[i]).var() != (#[trigger] decls[j]).var()
}

/// Every value form of a variable list is answered with what `value` says of it.
pub open spec fn answered_by(
    decls: Seq<LetBinding>,
    answers: Seq<Answer>,
    value: spec_fn(LispObject) -> LispObject,
) -> bool {
    forall|i: int|
        0 <= i < decls.len() && (#[trigger] decls[i]) is Form ==> answers[forms(
            decls.take(i),
        ) as int].reply == value(decls[i]->form)
}

/// The order of the elements of a `let` does not matter: where the value of a value form
/// does not depend on when it is evaluated, and no two elements are for the same
/// variable, another order of the elements binds the same variables to the same values.
pub proof fn law_let_permuted(
    decls: Seq<LetBinding>,
    answers: Seq<Answer>,
    others: Seq<LetBinding>,
    other_answers: Seq<Answer>,
    value: spec_fn(LispObject) -> LispObject,
    sym: LispObject,
)
    requires
        distinct_variables(decls),
        decls.to_multiset() == others.to_multiset(),
        answered_by(decls, answers, value),
        answered_by(others, other_answers, value),
    ensures
        same_pairs(declared(decls, answers), declared(others, other_answers)),
        last_value(declared(decls, answers), sym) == last_value(
            declared(others, other_answers),
            sym,
        ),
{
    decls.to_multiset_ensures();
    others.to_multiset_ensures();
    lemma_declared(decls, answers, value);
    lemma_declared(others, other_answers, value);
    let a = declared(decls, answers);
    let b = declared(others, other_answers);
    assert forall|pair: (LispObject, LispObject)| #[trigger] a.contains(pair) == b.contains(pair) by {
        if a.contains(pair) {
            let i = choose|i: int| 0 <= i < a.len() && a[i] == pair;
            assert(decls.to_multiset().count(decls[i]) > 0);
            assert(others.contains(decls[i]));
            let j = choose|j: int| 0 <= j < others.len() && others[j] == decls[i];
            assert(b[j] == pair);
        }
        if b.contains(pair) {
            let i = choose|i: int| 0 <= i < b.len() && b[i] == pair;
            assert(others.to_multiset().count(others[i]) > 0);
            assert(decls.contains(others[i]));
            let j = choose|j: int| 0 <= j < decls.len() && decls[j] == others[i];
            assert(a[j] == pair);
        }
    }
    assert forall|i: int, j: int| 0 <= i < j < a.len() implies (#[trigger] a[i]).0 != (
    #[trigger] a[j]).0 by {
        assert(decls[i].var() != decls[j].var());
    }
    lemma_same_last_value(a, b, sym);
}

/// The two lists of variables and values have the same length and hold the same pairs.
pub open spec fn same_pairs(
    a: Seq<(LispObject, LispObject)>,
    b: Seq<(LispObject, LispObject)>,
) -> bool {
    &&& a.len() == b.len()
    &&& forall|pair: (LispObject, LispObject)| #[trigger] a.contains(pair) == b.contains(pair)
}

/// The order of lexical bindings of distinct variables does not matter for any lookup:
/// in the environments that come of them in the one order and in the other, a variable
/// has the same value, or is looked up as before.
pub proof fn law_let_environment_permuted(
    m: Memory,
    lexenv: LispObject,
    pending: Bindings,
    other: Bindings,
    sym: LispObject,
)
    requires
        m.well_formed(),
        m.has(lexenv),
        pending.within(m),
        other.within(m),
        same_pairs(pending.pairs(), other.pairs()),
        distinct_pairs(pending.pairs()),
        pending.pairs().len() > 0,
        m.conses.len() + 2 * pending.pairs().len() <= usize::MAX,
    ensures
        ({
            let (n, env) = m.extended_by(lexenv, pending, pending.pairs().len());
            let (p, same) = m.extended_by(lexenv, other, other.pairs().len());
            match last_value(pending.pairs(), sym) {
                Some(val) => {
                    &&& n.assq(sym, env) matches Ok(pair) && n.cons(pair) == Some(
                        Cons { car: sym, cdr: val },
                    )
                    &&& p.assq(sym, same) matches Ok(pair) && p.cons(pair) == Some(
                        Cons { car: sym, cdr: val },
                    )
                },
                None => {
                    &&& n.assq(sym, env) == searched(m.assq(sym, lexenv), env)
                    &&& p.assq(sym, same) == searched(m.assq(sym, lexenv), same)
                },
            }
        }),
{
    let a = pending.pairs();
    let b = other.pairs();
    lemma_same_last_value(a, b, sym);
    assert(a.take(a.len() as int) =~= a);
    assert(b.take(b.len() as int) =~= b);
    law_let_environment(m, lexenv, pending, a.len(), sym);
    law_let_environment(m, lexenv, other, b.len(), sym);
}

impl Memory {
    /// The bindings among `pending` that are made lexically, in order.
    pub open spec fn lexical_of(self, lexenv: LispObject, pending: Bindings) -> Bindings
        decreases pending,
    {
        match pending {
            Bindings::Empty => Bindings::Empty,
            Bindings::Bind { var, val, rest } => if self.binds_lexically(lexenv, var) == Ok::<
                bool,
                LispError,
            >(true) {
                Bindings::Bind { var, val, rest: Box::new(self.lexical_of(lexenv, *rest)) }
            } else {
                self.lexical_of(lexenv, *rest)
            },
        }
    }

    /// The variables and values of `pending` that are bound dynamically, in order.
    pub open spec fn dynamic_of(self, lexenv: LispObject, pending: Bindings) -> Seq<
        (LispObject, LispObject),
    >
        decreases pending,
    {
        match pending {
            Bindings::Empty => Seq::empty(),
            Bindings::Bind { var, val, rest } => if self.binds_lexically(lexenv, var) == Ok::<
                bool,
                LispError,
            >(true) {
                self.dynamic_of(lexenv, *rest)
            } else {
                seq![(var, val)] + self.dynamic_of(lexenv, *rest)
            },
        }
    }

    /// For every variable of `pending` it can be told how it is bound.
    pub open spec fn bindable(self, lexenv: LispObject, pending: Bindings) -> bool
        decreases pending,
    {
        match pending {
            Bindings::Empty => true,
            Bindings::Bind { var, rest, .. } => self.binds_lexically(lexenv, var) is Ok
                && self.bindable(lexenv, *rest),
        }
    }

    /// `let` with all its bindings made, and the environment `env` gathered: that is put
    /// in force if it is not, and the body begins.
    pub open spec fn let_entered(self, env: LispObject, body: LispObject, count: i64) -> Step {
        self.let_bind(env, Bindings::Empty, body, count).1
    }
}

/// Every answer of a run that began in `m` with `start` comes with the heap as the
/// request left it.
pub open spec fn undisturbed(start: Step, m: Memory, answers: Seq<Answer>) -> bool {
    forall|k: int|
        0 <= k < answers.len() ==> (#[trigger] answers[k]).memory == start.left(
            m,
            answers.take(k),
        )
}

/// `let` asks for the dynamic ones among its bindings, in order, and gathers the lexical
/// ones, in order; after the last one it goes on to its body in the environment that it
/// has gathered. To bind a variable dynamically leaves the heap as it is.
pub proof fn law_let_mixed(
    m: Memory,
    lexenv: LispObject,
    pending: Bindings,
    body: LispObject,
    count: i64,
    answers: Seq<Answer>,
)
    requires
        m.well_formed(),
        m.has(lexenv),
        pending.within(m),
        m.bindable(lexenv, pending),
        m.conses.len() + 2 * pending.pairs().len() <= usize::MAX,
        answers.len() <= m.dynamic_of(lexenv, pending).len(),
        undisturbed(
            m.let_bind(lexenv, pending, body, count).1,
            m.let_bind(lexenv, pending, body, count).0,
            answers,
        ),
    ensures
        ({
            let (begun, start) = m.let_bind(lexenv, pending, body, count);
            let dynamic = m.dynamic_of(lexenv, pending);
            let lexical = m.lexical_of(lexenv, pending);
            let (n, env) = m.extended_by(lexenv, lexical, lexical.pairs().len());
            if answers.len() < dynamic.len() {
                let (var, val) = dynamic[answers.len() as int];
                start.after(answers) matches Step::Call(request, _) && request
                    == (Request::Specbind { sym: var, val })
            } else {
                start.after(answers) == n.let_entered(env, body, count) && start.left(
                    begun,
                    answers,
                ) == n
            }
        }),
    decreases pending,
{
    let (begun, start) = m.let_bind(lexenv, pending, body, count);
    if let Bindings::Bind { var, val, rest } = pending {
        if m.binds_lexically(lexenv, var) == Ok::<bool, LispError>(true) {
            let (p, pair) = m.consed(var, val);
            let (n, newenv) = p.consed(pair, lexenv);
            crate::laws::memory::lemma_consed(m, var, val);
            crate::laws::memory::lemma_consed(p, pair, lexenv);
            assert(m.extended(var, val, lexenv) == (n, newenv));
            crate::laws::memory::lemma_bindings_later(*rest, m, n);
            lemma_parts_later(n, m, newenv, lexenv, *rest);
            law_let_mixed(n, newenv, *rest, body, count, answers);
        } else if answers.len() > 0 {
            let frame = Frame::LetBound { lexenv, pending: *rest, body, count };
            assert(start == Step::Call(Request::Specbind { sym: var, val }, frame));
            let later = answers.drop_first();
            assert(answers.take(0) =~= Seq::<Answer>::empty());
            assert(answers[0].memory == m);
            let (n, next) = m.let_bind(lexenv, *rest, body, count);
            assert forall|k: int| 0 <= k < later.len() implies (#[trigger] later[k]).memory
                == next.left(n, later.take(k)) by {
                assert(later[k] == answers[k + 1]);
                crate::trace::lemma_left_first(start, begun, frame, answers.take(k + 1));
                assert(answers.take(k + 1).drop_first() =~= later.take(k));
            }
            law_let_mixed(m, lexenv, *rest, body, count, later);
            crate::trace::lemma_left_first(start, begun, frame, answers);
        }
    }
}

/// Which bindings are lexical does not change while the heap grows.
proof fn lemma_parts_later(
    n: Memory,
    m: Memory,
    newenv: LispObject,
    lexenv: LispObject,
    pending: Bindings,
)
    requires
        m.well_formed(),
        n.extends(m),
        n.symbols == m.symbols,
        n.lexenv == m.lexenv,
        newenv.is_nil() == lexenv.is_nil(),
    ensures
        n.lexical_of(newenv, pending) == m.lexical_of(lexenv, pending),
        n.dynamic_of(newenv, pending) == m.dynamic_of(lexenv, pending),
        n.bindable(newenv, pending) == m.bindable(lexenv, pending),
    decreases pending,
{
    if let Bindings::Bind { var, rest, .. } = pending {
        lemma_binds_later(n, m, newenv, lexenv, var);
        lemma_parts_later(n, m, newenv, lexenv, *rest);
    }
}

/// The order of the bindings of a `let` of distinct variables does not matter, whether
/// they are lexical or dynamic: in the one order and in the other, the same variables are
/// bound dynamically to the same values, and in the environment in which the body begins
/// every variable has the same value, or is looked up as before the `let`.
pub proof fn law_let_mixed_permuted(
    m: Memory,
    lexenv: LispObject,
    pending: Bindings,
    other: Bindings,
    body: LispObject,
    count: i64,
    answers: Seq<Answer>,
    other_answers: Seq<Answer>,
    sym: LispObject,
)
    requires
        m.well_formed(),
        m.has(lexenv),
        pending.within(m),
        other.within(m),
        same_pairs(pending.pairs(), other.pairs()),
        distinct_pairs(pending.pairs()),
        distinct_pairs(other.pairs()),
        m.bindable(lexenv, pending),
        m.bindable(lexenv, other),
        m.conses.len() + 2 * pending.pairs().len() <= usize::MAX,
        answers.len() == m.dynamic_of(lexenv, pending).len(),
        other_answers.len() == m.dynamic_of(lexenv, other).len(),
        undisturbed(
            m.let_bind(lexenv, pending, body, count).1,
            m.let_bind(lexenv, pending, body, count).0,
            answers,
        ),
        undisturbed(
            m.let_bind(lexenv, other, body, count).1,
            m.let_bind(lexenv, other, body, count).0,
            other_answers,
        ),
    ensures
        ({
            let lexical = m.lexical_of(lexenv, pending);
            let others = m.lexical_of(lexenv, other);
            let (n, env) = m.extended_by(lexenv, lexical, lexical.pairs().len());
            let (p, same) = m.extended_by(lexenv, others, others.pairs().len());
            &&& same_pairs(m.dynamic_of(lexenv, pending), m.dynamic_of(lexenv, other))
            &&& m.let_bind(lexenv, pending, body, count).1.after(answers) == n.let_entered(
                env,
                body,
                count,
            )
            &&& m.let_bind(lexenv, other, body, count).1.after(other_answers) == p.let_entered(
                same,
                body,
                count,
            )
            &&& match last_value(lexical.pairs(), sym) {
                Some(val) => {
                    &&& n.assq(sym, env) matches Ok(pair) && n.cons(pair) == Some(
                        Cons { car: sym, cdr: val },
                    )
                    &&& p.assq(sym, same) matches Ok(pair) && p.cons(pair) == Some(
                        Cons { car: sym, cdr: val },
                    )
                },
                None => {
                    &&& n.assq(sym, env) == searched(m.assq(sym, lexenv), env)
                    &&& p.assq(sym, same) == searched(m.assq(sym, lexenv), same)
                },
            }
        }),
{
    law_let_mixed(m, lexenv, pending, body, count, answers);
    law_let_mixed(m, lexenv, other, body, count, other_answers);
    let lexical = m.lexical_of(lexenv, pending);
    let others = m.lexical_of(lexenv, other);
    lemma_parts(m, lexenv, pending);
    lemma_parts(m, lexenv, other);
    lemma_same_length(lexical.pairs(), others.pairs());
    lemma_same_length(m.dynamic_of(lexenv, pending), m.dynamic_of(lexenv, other));
    if lexical.pairs().len() > 0 {
        law_let_environment_permuted(m, lexenv, lexical, others, sym);
    } else {
        lemma_searched_self(m, sym, lexenv);
    }
}

/// No two of the pairs are for the same variable.
pub open spec fn distinct_pairs(pairs: Seq<(LispObject, LispObject)>) -> bool {
    forall|i: int, j: int|
        0 <= i < j < pairs.len() ==> (#[trigger] pairs[i]).0 != (#[trigger] pairs[j]).0
}

/// Lexical and dynamic bindings are parts of all the bindings.
proof fn lemma_parts(m: Memory, lexenv: LispObject, pending: Bindings)
    requires
        distinct_pairs(pending.pairs()),
    ensures
        distinct_pairs(m.lexical_of(lexenv, pending).pairs()),
        distinct_pairs(m.dynamic_of(lexenv, pending)),
        m.lexical_of(lexenv, pending).pairs().len() <= pending.pairs().len(),
        forall|pair: (LispObject, LispObject)|
            #![trigger m.lexical_of(lexenv, pending).pairs().contains(pair)]
            #![trigger m.dynamic_of(lexenv, pending).contains(pair)]
            {
                let lexical = m.binds_lexically(lexenv, pair.0) == Ok::<bool, LispError>(true);
                &&& m.lexical_of(lexenv, pending).pairs().contains(pair) == (
                pending.pairs().contains(pair) && lexical)
                &&& m.dynamic_of(lexenv, pending).contains(pair) == (pending.pairs().contains(
                    pair,
                ) && !lexical)
            },
        pending.within(m) ==> m.lexical_of(lexenv, pending).within(m),
    decreases pending,
{
    if let Bindings::Bind { var, val, rest } = pending {
        let all = pending.pairs();
        let later = rest.pairs();
        assert forall|i: int, j: int| 0 <= i < j < later.len() implies (#[trigger] later[i]).0 != (
        #[trigger] later[j]).0 by {
            assert(later[i] == all[i + 1] && later[j] == all[j + 1]);
        }
        lemma_parts(m, lexenv, *rest);
        assert forall|pair: (LispObject, LispObject)| #[trigger] later.contains(
            pair,
        ) implies pair.0 != var by {
            let j = choose|j: int| 0 <= j < later.len() && later[j] == pair;
            assert(all[0].0 != all[j + 1].0);
        }
        lemma_in_front_of((var, val), later);
        lemma_in_front_of((var, val), m.lexical_of(lexenv, *rest).pairs());
        lemma_in_front_of((var, val), m.dynamic_of(lexenv, *rest));
        lemma_distinct_front((var, val), m.lexical_of(lexenv, *rest).pairs());
        lemma_distinct_front((var, val), m.dynamic_of(lexenv, *rest));
    }
}

/// What a list holds with one more pair in front.
proof fn lemma_in_front_of(
    first: (LispObject, LispObject),
    pairs: Seq<(LispObject, LispObject)>,
)
    ensures
        forall|pair: (LispObject, LispObject)| #[trigger]
            (seq![first] + pairs).contains(pair) == (pair == first || pairs.contains(pair)),
{
    let all = seq![first] + pairs;
    assert forall|pair: (LispObject, LispObject)| #[trigger] all.contains(pair) == (pair == first
        || pairs.contains(pair)) by {
        if all.contains(pair) {
            let i = choose|i: int| 0 <= i < all.len() && all[i] == pair;
            if i > 0 {
                assert(pairs[i - 1] == pair);
            }
        }
        if pair == first {
            assert(all[0] == pair);
        }
        if pairs.contains(pair) {
            let i = choose|i: int| 0 <= i < pairs.len() && pairs[i] == pair;
            assert(all[i + 1] == pair);
        }
    }
}

/// Pairs stay distinct with one for another variable in front.
proof fn lemma_distinct_front(
    first: (LispObject, LispObject),
    pairs: Seq<(LispObject, LispObject)>,
)
    requires
        distinct_pairs(pairs),
    ensures
        (forall|pair: (LispObject, LispObject)| #[trigger]
            pairs.contains(pair) ==> pair.0 != first.0) ==> distinct_pairs(seq![first] + pairs),
{
    let all = seq![first] + pairs;
    if forall|pair: (LispObject, LispObject)| #[trigger]
        pairs.contains(pair) ==> pair.0 != first.0 {
        assert forall|i: int, j: int| 0 <= i < j < all.len() implies (#[trigger] all[i]).0 != (
        #[trigger] all[j]).0 by {
            assert(all[j] == pairs[j - 1]);
            assert(pairs.contains(pairs[j - 1]));
            if i > 0 {
                assert(pairs[i - 1].0 != pairs[j - 1].0);
            }
        }
    }
}

/// Lists of distinct pairs that hold the same pairs are of the same length.
proof fn lemma_same_length(
    a: Seq<(LispObject, LispObject)>,
    b: Seq<(LispObject, LispObject)>,
)
    requires
        distinct_pairs(a),
        distinct_pairs(b),
        forall|pair: (LispObject, LispObject)| #[trigger] a.contains(pair) == b.contains(pair),
    ensures
        same_pairs(a, b),
{
    assert(a.no_duplicates()) by {
        assert forall|i: int, j: int| 0 <= i < a.len() && 0 <= j < a.len() && i != j implies a[i]
            != a[j] by {
            if i < j {
                assert(a[i].0 != a[j].0);
            } else {
                assert(a[j].0 != a[i].0);
            }
        }
    }
    assert(b.no_duplicates()) by {
        assert forall|i: int, j: int| 0 <= i < b.len() && 0 <= j < b.len() && i != j implies b[i]
            != b[j] by {
            if i < j {
                assert(b[i].0 != b[j].0);
            } else {
                assert(b[j].0 != b[i].0);
            }
        }
    }
    a.unique_seq_to_set();
    b.unique_seq_to_set();
    assert forall|pair: (LispObject, LispObject)| a.to_set().contains(pair)
        == b.to_set().contains(pair) by {
        assert(a.contains(pair) == b.contains(pair));
    }
    assert(a.to_set() =~= b.to_set());
}

/// A search over a list tells an error of that list.
proof fn lemma_searched_self(m: Memory, key: LispObject, list: LispObject)
    ensures
        searched(m.assq(key, list), list) == m.assq(key, list),
{
    reveal(Memory::assq);
}

/// What each element of a variable list declares.
proof fn lemma_declared(
    decls: Seq<LetBinding>,
    answers: Seq<Answer>,
    value: spec_fn(LispObject) -> LispObject,
)
    requires
        answered_by(decls, answers, value),
    ensures
        declared(decls, answers).len() == decls.len(),
        forall|i: int|
            0 <= i < decls.len() ==> (#[trigger] declared(decls, answers)[i]) == match decls[i] {
                LetBinding::Unset { var } => (var, LispObject::nil()),
                LetBinding::Form { var, form } => (var, value(form)),
            },
    decreases decls.len(),
{
    if decls.len() > 0 {
        let earlier = decls.drop_last();
        assert forall|i: int| 0 <= i < earlier.len() && (
        #[trigger] earlier[i]) is Form implies answers[forms(earlier.take(i)) as int].reply == value(
            earlier[i]->form,
        ) by {
            assert(earlier.take(i) =~= decls.take(i));
            assert(decls[i] is Form);
        }
        lemma_declared(earlier, answers, value);
        let n = decls.len() - 1;
        assert(decls.take(n) =~= earlier);
        assert(decls[n] == decls.last());
    }
}

/// Lists of distinct variables that hold the same pairs give a variable the same value.
proof fn lemma_same_last_value(
    a: Seq<(LispObject, LispObject)>,
    b: Seq<(LispObject, LispObject)>,
    sym: LispObject,
)
    requires
        same_pairs(a, b),
        distinct_pairs(a),
    ensures
        last_value(a, sym) == last_value(b, sym),
{
    lemma_last_contained(a, sym);
    lemma_last_contained(b, sym);
    match (last_value(a, sym), last_value(b, sym)) {
        (Some(v), Some(w)) => {
            assert(a.contains((sym, w)));
            let i = choose|i: int| 0 <= i < a.len() && a[i] == (sym, v);
            let j = choose|j: int| 0 <= j < a.len() && a[j] == (sym, w);
            if i < j {
                assert(a[i].0 != a[j].0);
            } else if j < i {
                assert(a[j].0 != a[i].0);
            }
        },
        (Some(v), None) => {
            assert(b.contains((sym, v)));
        },
        (None, Some(w)) => {
            assert(a.contains((sym, w)));
        },
        (None, None) => {},
    }
}

/// The last value of a variable is one of its values.
proof fn lemma_last_contained(pairs: Seq<(LispObject, LispObject)>, sym: LispObject)
    ensures
        match last_value(pairs, sym) {
            Some(val) => pairs.contains((sym, val)),
            None => forall|val: LispObject| !pairs.contains((sym, val)),
        },
    decreases pairs.len(),
{
    if pairs.len() > 0 {
        let earlier = pairs.drop_last();
        lemma_last_contained(earlier, sym);
        assert(pairs[pairs.len() - 1] == pairs.last());
        if pairs.last().0 == sym {
            assert(pairs.contains((sym, pairs.last().1)));
        } else {
            assert forall|val: LispObject| pairs.contains((sym, val)) == earlier.contains(
                (sym, val),
            ) by {
                if pairs.contains((sym, val)) {
                    let i = choose|i: int| 0 <= i < pairs.len() && pairs[i] == (sym, val);
                    assert(earlier[i] == (sym, val));
                }
                if earlier.contains((sym, val)) {
                    let i = choose|i: int| 0 <= i < earlier.len() && earlier[i] == (sym, val);
                    assert(pairs[i] == (sym, val));
                }
            }
        }
    }
}

/// `let*` with an empty variable list runs as `progn` of its body, and hands the value
/// of that over when the dynamic bindings are undone.
pub proof fn law_let_star_empty(m: Memory, scope: Scope, answers: Seq<Answer>)
    requires
        scope.rest.is_nil(),
        answers.len() > 0 ==> m.progn(scope.body).after(answers.drop_last()) is Call,
    ensures
        ({
            let inner = m.progn(scope.body);
            let outer = m.let_star_step(scope);
            &&& match inner.after(answers) {
                Step::Done(val) => outer.after(answers) == Step::Call(
                    Request::UnbindTo { count: scope.count, val },
                    Frame::Return,
                ),
                step => step is Call && outer.after(answers).alike(step),
            }
            &&& outer.left(m, answers) == inner.left(m, answers)
        }),
{
    lemma_progn_inside(m, scope, answers);
    if answers.len() > 0 {
        let before = answers.drop_last();
        assert(before.len() > 0 ==> m.progn(scope.body).after(before.drop_last()) is Call);
        lemma_progn_inside(m, scope, before);
    }
}

/// A body that is followed by nothing, and the same body in a `let*`.
spec fn progn_inside(inner: Step, outer: Step, count: i64) -> bool {
    match inner {
        Step::Call(request, Frame::Progn { rest, after: After::Value }) => outer == Step::Call(
            request,
            Frame::Progn { rest, after: After::Unbind { count } },
        ),
        Step::Done(val) => outer == Step::Call(Request::UnbindTo { count, val }, Frame::Return),
        _ => false,
    }
}

proof fn lemma_progn_inside(m: Memory, scope: Scope, answers: Seq<Answer>)
    requires
        scope.rest.is_nil(),
        answers.len() > 0 ==> m.progn(scope.body).after(answers.drop_last()) is Call,
    ensures
        progn_inside(
            m.progn(scope.body).after(answers),
            m.let_star_step(scope).after(answers),
            scope.count,
        ),
    decreases answers.len(),
{
    if answers.len() > 0 {
        let before = answers.drop_last();
        assert(before.len() > 0 ==> m.progn(scope.body).after(before.drop_last()) is Call);
        lemma_progn_inside(m, scope, before);
    }
}

/// `let*` binds the first element of its variable list as `let` of that element alone
/// does: once the user did not quit, both evaluate the value form if there is one, ask
/// for the same binding, and leave the same heap. Once the variable is bound, `let`
/// begins with its body, and `let*` goes on with the rest of its list. `value` holds
/// the answer with the value if there is a value form, and is empty if there is none;
/// neither the value form nor the binding of an ordinary variable changes which lexical
/// environment is in force.
pub proof fn law_let_star_first(
    m: Memory,
    spine: Seq<LispObject>,
    items: Seq<LispObject>,
    scope: Scope,
    alone: Seq<LispObject>,
    inner: LispObject,
    decl: LetBinding,
    polled: Answer,
    value: Seq<Answer>,
    bound: Answer,
)
    requires
        m.holds(spine, items),
        items.len() > 0,
        scope.lexenv == m.lexenv,
        polled.memory.holds(alone, seq![items[0]]),
        alone.last().is_nil(),
        polled.memory.lexenv == m.lexenv,
        polled.memory.let_binding_value(items[0]) == Ok::<LetBinding, LispError>(decl),
        value.len() == forms(seq![decl]),
        value.len() > 0 ==> value[0].memory.lexenv == m.lexenv,
        ({
            let here = if value.len() > 0 {
                value[0].memory
            } else {
                polled.memory
            };
            &&& here.well_formed()
            &&& here.conses.len() + 2 <= usize::MAX
            &&& match here.binds_lexically(m.lexenv, decl.var()) {
                Ok(lexical) => !lexical ==> bound.memory.lexenv == m.lexenv,
                Err(_) => false,
            }
        }),
    ensures
        ({
            let star = m.let_star_step(Scope { rest: spine[0], ..scope });
            let single = Scope {
                varlist: alone[0],
                rest: alone[0],
                body: inner,
                lexenv: m.lexenv,
                count: scope.count,
            };
            let (begun, one) = polled.memory.let_step(single, Bindings::Empty);
            &&& star matches Step::Call(Request::MaybeQuit, _)
            &&& star.after(seq![polled]).alike(one)
            &&& star.left(m, seq![polled]) == begun
            &&& star.after(seq![polled] + value).alike(one.after(value))
            &&& star.left(m, seq![polled] + value) == one.left(begun, value)
            &&& one.after(value) matches Step::Call(Request::Specbind { .. }, _)
            &&& star.after(seq![polled] + value + seq![bound]) == bound.memory.let_star_step(
                Scope { rest: spine[1], ..scope },
            )
            &&& star.left(m, seq![polled] + value + seq![bound]) == bound.memory
            &&& one.after(value + seq![bound]) == bound.memory.progn_step(
                inner,
                LispObject::nil(),
                After::Unbind { count: scope.count },
            )
        }),
{
    let star = m.let_star_step(Scope { rest: spine[0], ..scope });
    let single = Scope {
        varlist: alone[0],
        rest: alone[0],
        body: inner,
        lexenv: m.lexenv,
        count: scope.count,
    };
    let next = Scope { rest: spine[1], ..scope };
    let (here, val) = if value.len() > 0 {
        (value[0].memory, value[0].reply)
    } else {
        (polled.memory, LispObject::nil())
    };
    assert(seq![decl].drop_last() =~= Seq::<LetBinding>::empty());
    reveal_with_fuel(forms, 2);
    crate::laws::memory::lemma_roots(here);
    lemma_single_binding(here, next, decl.var(), val, inner);
    lemma_star_side(m, spine, items, scope, decl, polled, value, bound);
    lemma_let_alone(polled.memory, single, alone, items[0], decl);
    lemma_let_side(single, alone, decl, polled, value, bound);
}

/// The run of `let*` over its first element.
proof fn lemma_star_side(
    m: Memory,
    spine: Seq<LispObject>,
    items: Seq<LispObject>,
    scope: Scope,
    decl: LetBinding,
    polled: Answer,
    value: Seq<Answer>,
    bound: Answer,
)
    requires
        m.holds(spine, items),
        items.len() > 0,
        polled.memory.let_binding_value(items[0]) == Ok::<LetBinding, LispError>(decl),
        value.len() == if decl is Form {
            1nat
        } else {
            0nat
        },
    ensures
        ({
            let star = m.let_star_step(Scope { rest: spine[0], ..scope });
            let next = Scope { rest: spine[1], ..scope };
            let (here, val) = if value.len() > 0 {
                (value[0].memory, value[0].reply)
            } else {
                (polled.memory, LispObject::nil())
            };
            let (n, step) = here.let_star_bind(next, decl.var(), val);
            &&& star matches Step::Call(Request::MaybeQuit, _)
            &&& decl matches LetBinding::Form { form, .. } ==> (star.after(
                seq![polled],
            ) matches Step::Call(request, _) && request == (Request::Eval { form })) && star.left(
                m,
                seq![polled],
            ) == polled.memory
            &&& value.len() == 0 ==> seq![polled] + value == seq![polled]
            &&& star.after(seq![polled] + value) == step
            &&& star.left(m, seq![polled] + value) == n
            &&& step matches Step::Call(_, Frame::LetStarBound { scope: on }) ==> star.after(
                seq![polled] + value + seq![bound],
            ) == bound.memory.let_star_step(on) && star.left(
                m,
                seq![polled] + value + seq![bound],
            ) == bound.memory
        }),
{
    let star = m.let_star_step(Scope { rest: spine[0], ..scope });
    crate::trace::lemma_holds_end(m, spine, items, 0);
    assert(m.cons(spine[0]) is Some);
    crate::trace::lemma_after_first(star, seq![polled]);
    assert(seq![polled].drop_first() =~= Seq::<Answer>::empty());
    assert(seq![polled].drop_last() =~= Seq::<Answer>::empty());
    let early = seq![polled] + value;
    assert((early + seq![bound]).drop_last() =~= early);
    assert((early + seq![bound]).last() == bound);
    if decl is Form {
        assert(early.drop_last() =~= seq![polled]);
        assert(early.last() == value[0]);
    } else {
        assert(early =~= seq![polled]);
    }
}

/// The run of `let` over its only element.
proof fn lemma_let_side(
    single: Scope,
    alone: Seq<LispObject>,
    decl: LetBinding,
    polled: Answer,
    value: Seq<Answer>,
    bound: Answer,
)
    requires
        alone.len() == 2,
        alone[1].is_nil(),
        polled.memory.let_step(single, Bindings::Empty) == polled.memory.let_one(
            single,
            alone[1],
            decl,
        ),
        value.len() == if decl is Form {
            1nat
        } else {
            0nat
        },
    ensures
        ({
            let (begun, one) = polled.memory.let_step(single, Bindings::Empty);
            let (here, val) = if value.len() > 0 {
                (value[0].memory, value[0].reply)
            } else {
                (polled.memory, LispObject::nil())
            };
            let (n, step) = here.let_bind(
                single.lexenv,
                Bindings::Bind { var: decl.var(), val, rest: Box::new(Bindings::Empty) },
                single.body,
                single.count,
            );
            let entered = bound.memory.progn_step(
                single.body,
                LispObject::nil(),
                After::Unbind { count: single.count },
            );
            &&& one.after(value) == step
            &&& one.left(begun, value) == n
            &&& step matches Step::Call(_, frame) ==> (frame == (Frame::LetEntered {
                body: single.body,
                count: single.count,
            }) || bound.memory.lexenv == single.lexenv && frame == (Frame::LetBound {
                lexenv: single.lexenv,
                pending: Bindings::Empty,
                body: single.body,
                count: single.count,
            }) ==> one.after(value + seq![bound]) == entered)
        }),
{
    assert((value + seq![bound]).drop_last() =~= value);
    assert((value + seq![bound]).last() == bound);
    if decl is Form {
        assert(value.drop_last() =~= Seq::<Answer>::empty());
        lemma_let_bound_alone(value[0], Scope { rest: alone[1], ..single }, decl.var());
    } else {
        assert(value =~= Seq::<Answer>::empty());
    }
}

impl Memory {
    /// `let` of one element, which says `decl` and has `rest` behind it.
    spec fn let_one(self, single: Scope, rest: LispObject, decl: LetBinding) -> (Memory, Step) {
        match decl {
            LetBinding::Unset { var } => self.let_bind(
                single.lexenv,
                Bindings::Bind {
                    var,
                    val: LispObject::nil(),
                    rest: Box::new(Bindings::Empty),
                },
                single.body,
                single.count,
            ),
            LetBinding::Form { var, form } => (
                self,
                Step::Call(
                    Request::Eval { form },
                    Frame::LetValue {
                        scope: Scope { rest, ..single },
                        var,
                        values: Bindings::Empty,
                    },
                ),
            ),
        }
    }
}

/// `let` of one element.
proof fn lemma_let_alone(
    m: Memory,
    single: Scope,
    alone: Seq<LispObject>,
    item: LispObject,
    decl: LetBinding,
)
    requires
        m.holds(alone, seq![item]),
        alone.last().is_nil(),
        single.rest == alone[0],
        m.let_binding_value(item) == Ok::<LetBinding, LispError>(decl),
    ensures
        m.let_step(single, Bindings::Empty) == m.let_one(single, alone[1], decl),
{
    crate::trace::lemma_holds_end(m, alone, seq![item], 0);
    assert(m.cons(alone[0]) == Some(Cons { car: item, cdr: alone[1] }));
    reveal_with_fuel(Memory::let_values, 2);
    reveal_with_fuel(Bindings::reversed_onto, 2);
}

/// `let` of one element with its value.
proof fn lemma_let_bound_alone(value: Answer, single: Scope, var: LispObject)
    requires
        single.rest.is_nil(),
    ensures
        value.memory.resumed(
            Frame::LetValue { scope: single, var, values: Bindings::Empty },
            value.reply,
        ) == value.memory.let_bind(
            single.lexenv,
            Bindings::Bind { var, val: value.reply, rest: Box::new(Bindings::Empty) },
            single.body,
            single.count,
        ),
{
    assert(value.memory.ends_after(single.rest, 0));
    crate::lists::lemma_list_end(value.memory, single.rest, 0);
    reveal_with_fuel(Bindings::reversed_onto, 2);
}

/// The first binding of `let*` and the only one of `let`.
proof fn lemma_single_binding(
    m: Memory,
    scope: Scope,
    var: LispObject,
    val: LispObject,
    body: LispObject,
)
    requires
        scope.lexenv == m.lexenv,
        m.binds_lexically(m.lexenv, var) is Ok,
        m.has(m.lexenv),
        m.conses.len() + 2 <= usize::MAX,
    ensures
        ({
            let pending = Bindings::Bind { var, val, rest: Box::new(Bindings::Empty) };
            let (n, step) = m.let_bind(m.lexenv, pending, body, scope.count);
            let (same, star) = m.let_star_bind(scope, var, val);
            &&& n == same
            &&& star matches Step::Call(request, frame) && frame == (Frame::LetStarBound { scope })
                && (step matches Step::Call(r, f) && r == request && f == if m.binds_lexically(
                m.lexenv,
                var,
            ) == Ok::<bool, LispError>(true) {
                Frame::LetEntered { body, count: scope.count }
            } else {
                Frame::LetBound {
                    lexenv: m.lexenv,
                    pending: Bindings::Empty,
                    body,
                    count: scope.count,
                }
            })
            &&& star matches Step::Call(Request::Specbind { .. }, _)
        }),
{
    reveal_with_fuel(Memory::let_bind, 2);
}

/// A step asks for a binding.
pub open spec fn asks_to_bind(step: Step) -> bool {
    step matches Step::Call(Request::Specbind { .. }, _)
}

/// The two steps of `let*` are the same but for the depth to which bindings are undone
/// and the list that an error would tell; the scopes are `s` and `t`.
pub open spec fn star_alike(s: Scope, t: Scope, step: Step, other: Step) -> bool {
    match (step, other) {
        (
            Step::Call(request, Frame::LetStarPolled { scope, binding }),
            Step::Call(same, Frame::LetStarPolled { scope: inner, binding: b }),
        ) => request == same && binding == b && scopes_alike(s, t, scope, inner),
        (
            Step::Call(request, Frame::LetStarValue { scope, var }),
            Step::Call(same, Frame::LetStarValue { scope: inner, var: v }),
        ) => request == same && var == v && scopes_alike(s, t, scope, inner),
        (
            Step::Call(request, Frame::LetStarBound { scope }),
            Step::Call(same, Frame::LetStarBound { scope: inner }),
        ) => request == same && scopes_alike(s, t, scope, inner),
        (
            Step::Call(request, Frame::Progn { rest, after }),
            Step::Call(same, Frame::Progn { rest: r, after: a }),
        ) => request == same && rest == r && after == (After::Unbind { count: s.count }) && a == (
        After::Unbind { count: t.count }),
        (
            Step::Call(Request::UnbindTo { count, val }, Frame::Return),
            Step::Call(Request::UnbindTo { count: c, val: v }, Frame::Return),
        ) => count == s.count && c == t.count && val == v,
        (Step::Done(value), Step::Done(same)) => value == same,
        (Step::Fail(_), Step::Fail(_)) => true,
        _ => false,
    }
}

/// `scope` comes of `s` and `inner` of `t`, and both are at the same place.
pub open spec fn scopes_alike(s: Scope, t: Scope, scope: Scope, inner: Scope) -> bool {
    &&& scope.rest == inner.rest
    &&& scope.body == inner.body
    &&& scope == (Scope { rest: scope.rest, body: scope.body, ..s })
    &&& inner == (Scope { rest: inner.rest, body: inner.body, ..t })
}

/// The answers that an inner `let*` with the scope `t` gets where an outer one with the
/// scope `s`, begun in the same memory, gets the `answers`: the same ones, and one more
/// wherever the inner one asks for a longer environment to be put in force, which the
/// outer one does at once; that answer comes with the heap on which this is done.
pub open spec fn inner_answers(m: Memory, s: Scope, t: Scope, answers: Seq<Answer>) -> Seq<Answer>
    decreases answers.len(),
{
    if answers.len() == 0 {
        answers
    } else {
        let outer = m.let_star_step(s);
        let inner = m.let_star_step(t);
        let same = inner_answers(m, s, t, answers.drop_last()).push(answers.last());
        if asks_to_bind(inner.after(same)) && !asks_to_bind(outer.after(answers)) {
            same.push(Answer { memory: outer.left(m, answers), reply: LispObject::nil() })
        } else {
            same
        }
    }
}

/// `let*` in the middle of its variable list, with the scope `s`, goes on as another
/// `let*` over the rest of the list, with the same body and the scope `t`, would begin:
/// they make the same requests and leave the same heap, but that the inner one may have
/// to ask for a longer environment to be put in force, and undoes its bindings to its own
/// depth. While the outer one is on its way, the environment of its beginning is not in
/// force again if it was another than that of the beginning of the inner one.
pub proof fn law_let_star_inner(m: Memory, s: Scope, t: Scope, answers: Seq<Answer>)
    requires
        s.rest == t.rest,
        s.body == t.body,
        s.lexenv.is_nil() == t.lexenv.is_nil(),
        s.lexenv != t.lexenv ==> forall|k: int|
            0 <= k < answers.len() ==> (#[trigger] answers[k]).memory.lexenv != s.lexenv,
    ensures
        ({
            let outer = m.let_star_step(s);
            let inner = m.let_star_step(t);
            let again = inner_answers(m, s, t, answers);
            &&& star_alike(s, t, outer.after(answers), inner.after(again))
            &&& outer.left(m, answers) == inner.left(m, again)
        }),
    decreases answers.len(),
{
    let outer = m.let_star_step(s);
    let inner = m.let_star_step(t);
    if answers.len() > 0 {
        let before = answers.drop_last();
        let earlier = inner_answers(m, s, t, before);
        let last = answers[answers.len() - 1];
        law_let_star_inner(m, s, t, before);
        assert(s.lexenv != t.lexenv ==> last.memory.lexenv != s.lexenv);
        let same = earlier.push(last);
        assert(same.drop_last() =~= earlier);
        if let (Step::Call(request, frame), Step::Call(r, f)) = (
            outer.after(before),
            inner.after(earlier),
        ) {
            lemma_star_answered(last, request, frame, r, f, s, t);
            if asks_to_bind(inner.after(same)) && !asks_to_bind(outer.after(answers)) {
                let entered = Answer {
                    memory: outer.left(m, answers),
                    reply: LispObject::nil(),
                };
                assert(same.push(entered).drop_last() =~= same);
            }
        }
    }
}

/// One answer to both: they go on alike, or the inner one asks for the longer
/// environment, and with that in force goes on like the outer one.
proof fn lemma_star_answered(
    answer: Answer,
    request: Request,
    frame: Frame,
    r: Request,
    same: Frame,
    s: Scope,
    t: Scope,
)
    requires
        s.lexenv.is_nil() == t.lexenv.is_nil(),
        star_alike(s, t, Step::Call(request, frame), Step::Call(r, same)),
        s.lexenv != t.lexenv ==> answer.memory.lexenv != s.lexenv,
    ensures
        ({
            let (n, step) = answer.memory.resumed(frame, answer.reply);
            let (p, other) = answer.memory.resumed(same, answer.reply);
            if asks_to_bind(other) && !asks_to_bind(step) {
                other matches Step::Call(bind, entered) && bind == (Request::Specbind {
                    sym: LispObject::Symbol(QINTERNAL_INTERPRETER_ENVIRONMENT),
                    val: n.lexenv,
                }) && n == p.with_lexenv(n.lexenv) && n.resumed(entered, LispObject::nil()).0 == n
                    && star_alike(s, t, step, n.resumed(entered, LispObject::nil()).1)
            } else {
                n == p && star_alike(s, t, step, other)
            }
        }),
{
    let m = answer.memory;
    lemma_star_turn(m, request, frame, r, same, s, t, answer.reply);
    if asks_to_bind(m.resumed(same, answer.reply).1) && !asks_to_bind(
        m.resumed(frame, answer.reply).1,
    ) {
        lemma_star_parts(m, request, frame, r, same, s, t, answer.reply);
    } else if asks_to_bind(m.resumed(frame, answer.reply).1) {
        lemma_star_never(m, request, frame, r, same, s, t, answer.reply);
    }
}

/// The outer `let*` does not ask for a binding where the inner one does not.
proof fn lemma_star_never(
    m: Memory,
    request: Request,
    frame: Frame,
    r: Request,
    same: Frame,
    s: Scope,
    t: Scope,
    reply: LispObject,
)
    requires
        s.lexenv.is_nil() == t.lexenv.is_nil(),
        star_alike(s, t, Step::Call(request, frame), Step::Call(r, same)),
        s.lexenv != t.lexenv ==> m.lexenv != s.lexenv,
        asks_to_bind(m.resumed(frame, reply).1),
    ensures
        asks_to_bind(m.resumed(same, reply).1),
{
    match (frame, same) {
        (
            Frame::LetStarPolled { scope, binding },
            Frame::LetStarPolled { scope: inner, binding: _ },
        ) => {
            if let Ok(LetBinding::Unset { var }) = m.let_binding_value(binding) {
                lemma_star_bind_never(m, scope, inner, s, t, var, LispObject::nil());
            }
        },
        (Frame::LetStarValue { scope, var }, Frame::LetStarValue { scope: inner, var: _ }) => {
            lemma_star_bind_never(m, scope, inner, s, t, var, reply);
        },
        (Frame::LetStarBound { scope }, Frame::LetStarBound { scope: inner }) => {
            lemma_star_step_alike(m, scope, inner, s, t);
        },
        _ => {},
    }
}

proof fn lemma_star_bind_never(
    m: Memory,
    scope: Scope,
    inner: Scope,
    s: Scope,
    t: Scope,
    var: LispObject,
    val: LispObject,
)
    requires
        s.lexenv.is_nil() == t.lexenv.is_nil(),
        scopes_alike(s, t, scope, inner),
        s.lexenv != t.lexenv ==> m.lexenv != s.lexenv,
        asks_to_bind(m.let_star_bind(scope, var, val).1),
    ensures
        asks_to_bind(m.let_star_bind(inner, var, val).1),
{
    let (extended, newenv) = m.extended(var, val, m.lexenv);
    lemma_star_step_alike(extended.with_lexenv(newenv), scope, inner, s, t);
}

/// One answer leaves steps that are alike alike, unless one of them asks for a binding
/// and the other does not, for which the environment must be that of one of them alone.
proof fn lemma_star_turn(
    m: Memory,
    request: Request,
    frame: Frame,
    r: Request,
    same: Frame,
    s: Scope,
    t: Scope,
    reply: LispObject,
)
    requires
        s.lexenv.is_nil() == t.lexenv.is_nil(),
        star_alike(s, t, Step::Call(request, frame), Step::Call(r, same)),
    ensures
        ({
            let (n, step) = m.resumed(frame, reply);
            let (p, other) = m.resumed(same, reply);
            asks_to_bind(step) == asks_to_bind(other) || (m.lexenv == s.lexenv) == (m.lexenv
                == t.lexenv) ==> n == p && star_alike(s, t, step, other)
        }),
{
    match (frame, same) {
        (
            Frame::LetStarPolled { scope, binding },
            Frame::LetStarPolled { scope: inner, binding: _ },
        ) => {
            if let Ok(LetBinding::Unset { var }) = m.let_binding_value(binding) {
                lemma_star_bind_alike(m, scope, inner, s, t, var, LispObject::nil());
            }
        },
        (Frame::LetStarValue { scope, var }, Frame::LetStarValue { scope: inner, var: _ }) => {
            lemma_star_bind_alike(m, scope, inner, s, t, var, reply);
        },
        (Frame::LetStarBound { scope }, Frame::LetStarBound { scope: inner }) => {
            lemma_star_step_alike(m, scope, inner, s, t);
        },
        _ => {},
    }
}

proof fn lemma_star_step_alike(m: Memory, scope: Scope, inner: Scope, s: Scope, t: Scope)
    requires
        scopes_alike(s, t, scope, inner),
    ensures
        star_alike(s, t, m.let_star_step(scope), m.let_star_step(inner)),
        !asks_to_bind(m.let_star_step(scope)),
        !asks_to_bind(m.let_star_step(inner)),
{
}

proof fn lemma_star_bind_alike(
    m: Memory,
    scope: Scope,
    inner: Scope,
    s: Scope,
    t: Scope,
    var: LispObject,
    val: LispObject,
)
    requires
        s.lexenv.is_nil() == t.lexenv.is_nil(),
        scopes_alike(s, t, scope, inner),
    ensures
        ({
            let (n, step) = m.let_star_bind(scope, var, val);
            let (p, other) = m.let_star_bind(inner, var, val);
            asks_to_bind(step) == asks_to_bind(other) || (m.lexenv == s.lexenv) == (m.lexenv
                == t.lexenv) ==> n == p && star_alike(s, t, step, other)
        }),
{
    let (extended, newenv) = m.extended(var, val, m.lexenv);
    lemma_star_step_alike(extended.with_lexenv(newenv), scope, inner, s, t);
}

/// Where the inner `let*` asks for a binding and the outer one does not.
proof fn lemma_star_parts(
    m: Memory,
    request: Request,
    frame: Frame,
    r: Request,
    same: Frame,
    s: Scope,
    t: Scope,
    reply: LispObject,
)
    requires
        s.lexenv.is_nil() == t.lexenv.is_nil(),
        star_alike(s, t, Step::Call(request, frame), Step::Call(r, same)),
        !asks_to_bind(m.resumed(frame, reply).1),
        asks_to_bind(m.resumed(same, reply).1),
    ensures
        ({
            let (n, outer) = m.resumed(frame, reply);
            let (p, inner) = m.resumed(same, reply);
            &&& n == p.with_lexenv(n.lexenv)
            &&& inner matches Step::Call(bind, entered)
            &&& bind == (Request::Specbind {
                sym: LispObject::Symbol(QINTERNAL_INTERPRETER_ENVIRONMENT),
                val: n.lexenv,
            })
            &&& entered matches Frame::LetStarBound { scope } && star_alike(
                s,
                t,
                outer,
                n.let_star_step(scope),
            )
        }),
{
}

/// `let*` is `let` of its first element around a `let*` of the others. Begun in the same
/// state, once the user did not quit, both evaluate the first value form and bind the
/// first variable by the same requests. After that `let` asks for its body to be
/// evaluated, which is the `let*` of the others, `rest`, with the same body; that one
/// makes the requests that the whole `let*` goes on with, leaves the same heap, and
/// hands over the same value when it undoes its bindings. With that value for its body,
/// `let` hands it over in its turn, to the depth to which the whole `let*` does.
pub proof fn law_let_star_is_let(
    m: Memory,
    spine: Seq<LispObject>,
    items: Seq<LispObject>,
    scope: Scope,
    alone: Seq<LispObject>,
    inner: LispObject,
    form: Cons,
    decl: LetBinding,
    polled: Answer,
    value: Seq<Answer>,
    bound: Answer,
    depth: i64,
    late: Seq<Answer>,
    returned: Answer,
)
    requires
        m.holds(spine, items),
        items.len() > 0,
        scope.lexenv == m.lexenv,
        polled.memory.holds(alone, seq![items[0]]),
        alone.last().is_nil(),
        polled.memory.lexenv == m.lexenv,
        polled.memory.let_binding_value(items[0]) == Ok::<LetBinding, LispError>(decl),
        value.len() == forms(seq![decl]),
        value.len() > 0 ==> value[0].memory.lexenv == m.lexenv,
        ({
            let here = if value.len() > 0 {
                value[0].memory
            } else {
                polled.memory
            };
            let val = if value.len() > 0 {
                value[0].reply
            } else {
                LispObject::nil()
            };
            &&& here.well_formed()
            &&& here.conses.len() + 2 <= usize::MAX
            &&& match here.binds_lexically(m.lexenv, decl.var()) {
                Ok(lexical) => bound.memory.lexenv == if lexical {
                    here.extended(decl.var(), val, m.lexenv).1
                } else {
                    m.lexenv
                },
                Err(_) => false,
            }
        }),
        bound.memory.cons(inner) matches Some(only) && bound.memory.cons(only.car) == Some(form)
            && only.cdr.is_nil(),
        bound.memory.cons(form.cdr) == Some(Cons { car: spine[1], cdr: scope.body }),
        bound.memory.lexenv != m.lexenv ==> forall|k: int|
            0 <= k < late.len() ==> (#[trigger] late[k]).memory.lexenv != m.lexenv,
    ensures
        ({
            let star = m.let_star_step(Scope { rest: spine[0], ..scope });
            let single = Scope {
                varlist: alone[0],
                rest: alone[0],
                body: inner,
                lexenv: m.lexenv,
                count: scope.count,
            };
            let (begun, one) = polled.memory.let_step(single, Bindings::Empty);
            let whole = Scope { rest: spine[1], ..scope };
            let others = Scope {
                varlist: spine[1],
                rest: spine[1],
                body: scope.body,
                lexenv: bound.memory.lexenv,
                count: depth,
            };
            let rest = bound.memory.let_star_step(others);
            let again = inner_answers(bound.memory, whole, others, late);
            let early = seq![polled] + value + seq![bound];
            let end = star.after(early + late);
            &&& star matches Step::Call(Request::MaybeQuit, _)
            &&& star.after(seq![polled]).alike(one) && star.left(m, seq![polled]) == begun
            &&& star.after(seq![polled] + value).alike(one.after(value)) && star.left(
                m,
                seq![polled] + value,
            ) == one.left(begun, value)
            &&& one.after(value + seq![bound]) matches Step::Call(request, _) && request
                == (Request::Eval { form: bound.memory.cons(inner)->0.car })
            &&& star_alike(whole, others, end, rest.after(again))
            &&& star.left(m, early + late) == rest.left(bound.memory, again)
            &&& end matches Step::Call(Request::UnbindTo { count, val }, Frame::Return) ==> {
                &&& count == scope.count
                &&& rest.after(again) == Step::Call(
                    Request::UnbindTo { count: depth, val },
                    Frame::Return,
                )
                &&& returned.reply == val ==> one.after(value + seq![bound] + seq![returned]) == end
            }
        }),
{
    let star = m.let_star_step(Scope { rest: spine[0], ..scope });
    let single = Scope {
        varlist: alone[0],
        rest: alone[0],
        body: inner,
        lexenv: m.lexenv,
        count: scope.count,
    };
    let one = polled.memory.let_step(single, Bindings::Empty).1;
    let whole = Scope { rest: spine[1], ..scope };
    let others = Scope {
        varlist: spine[1],
        rest: spine[1],
        body: scope.body,
        lexenv: bound.memory.lexenv,
        count: depth,
    };
    let early = seq![polled] + value + seq![bound];
    law_let_star_first(m, spine, items, scope, alone, inner, decl, polled, value, bound);
    lemma_bound_nil(m, decl, polled, value, bound);
    law_let_star_inner(bound.memory, whole, others, late);
    lemma_goes_on(star, m, early, bound.memory, late);
    let done = value + seq![bound];
    assert((done + seq![returned]).drop_last() =~= done);
    assert((done + seq![returned]).last() == returned);
}

/// After the first binding, lexical binding is in force if it was before.
proof fn lemma_bound_nil(
    m: Memory,
    decl: LetBinding,
    polled: Answer,
    value: Seq<Answer>,
    bound: Answer,
)
    requires
        ({
            let (here, val) = if value.len() > 0 {
                (value[0].memory, value[0].reply)
            } else {
                (polled.memory, LispObject::nil())
            };
            match here.binds_lexically(m.lexenv, decl.var()) {
                Ok(lexical) => bound.memory.lexenv == if lexical {
                    here.extended(decl.var(), val, m.lexenv).1
                } else {
                    m.lexenv
                },
                Err(_) => false,
            }
        }),
    ensures
        bound.memory.lexenv.is_nil() == m.lexenv.is_nil(),
{
}

/// A run that has come to a step that leaves the heap as it is goes on from there.
proof fn lemma_goes_on(
    start: Step,
    m: Memory,
    early: Seq<Answer>,
    here: Memory,
    late: Seq<Answer>,
)
    requires
        start.left(m, early) == here,
    ensures
        start.after(early + late) == start.after(early).after(late),
        start.left(m, early + late) == start.after(early).left(here, late),
{
    crate::trace::lemma_after_split(start, early, late);
    if late.len() > 0 {
        assert((early + late).drop_last() =~= early + late.drop_last());
        assert((early + late).last() == late.last());
        crate::trace::lemma_after_split(start, early, late.drop_last());
    } else {
        assert(early + late =~= early);
    }
}

/// What a search over `list` ends with where a search over its rest ends with
/// `found`: an error is about the whole list.
pub open spec fn searched(
    found: Result<LispObject, LispError>,
    list: LispObject,
) -> Result<LispObject, LispError> {
    match found {
        Err(LispError::WrongType { predicate, .. }) => Err(
            LispError::WrongType { predicate, value: list },
        ),
        Err(LispError::CircularList { .. }) => Err(LispError::CircularList { list }),
        _ => found,
    }
}

/// A search comes to the first element first, and goes on with the rest if that is
/// not what it looks for.
proof fn lemma_in_front(
    m: Memory,
    list: LispObject,
    elt: LispObject,
    rest: LispObject,
    key: LispObject,
)
    requires
        m.cons(list) == Some(Cons { car: elt, cdr: rest }),
        m.cons(elt) is Some,
    ensures
        m.assq(key, list) == if m.cons(elt)->0.car == key {
            Ok(elt)
        } else {
            searched(m.assq(key, rest), list)
        },
{
    crate::lists::lemma_rest_end(m, list, elt, rest);
    if m.cons(elt)->0.car == key {
        assert(m.assq_at(key, list, 0));
        crate::lists::lemma_assq_found(m, key, list, 0);
    } else {
        assert(!m.assq_at(key, list, 0));
        assert forall|k: nat| m.assq_at(key, list, k + 1) == m.assq_at(key, rest, k) by {
            assert(m.tail(rest, k) == m.tail(list, k + 1));
        }
        if exists|k: nat| m.assq_at(key, rest, k) {
            let any = choose|k: nat| m.assq_at(key, rest, k);
            let n = crate::lists::lemma_first_assq(m, key, rest, any);
            assert(m.assq_at(key, list, n + 1));
            assert forall|k: nat| k < n + 1 implies !m.assq_at(key, list, k) by {
                if k > 0 {
                    assert(!m.assq_at(key, rest, (k - 1) as nat));
                    assert((k - 1) as nat + 1 == k);
                }
            }
            crate::lists::lemma_assq_found(m, key, list, n + 1);
            crate::lists::lemma_assq_found(m, key, rest, n);
            assert(m.tail(rest, n) == m.tail(list, n + 1));
        } else {
            assert forall|k: nat| !m.assq_at(key, list, k) by {
                if k > 0 {
                    assert(!m.assq_at(key, rest, (k - 1) as nat));
                    assert((k - 1) as nat + 1 == k);
                }
            }
            crate::lists::lemma_assq_missing(m, key, list);
            crate::lists::lemma_assq_missing(m, key, rest);
        }
    }
}

/// A later value for a variable counts more than an earlier one.
proof fn lemma_last_value(
    var: LispObject,
    val: LispObject,
    pairs: Seq<(LispObject, LispObject)>,
    sym: LispObject,
)
    ensures
        last_value(seq![(var, val)] + pairs, sym) == match last_value(pairs, sym) {
            Some(later) => Some(later),
            None => if var == sym {
                Some(val)
            } else {
                None
            },
        },
    decreases pairs.len(),
{
    let all = seq![(var, val)] + pairs;
    reveal_with_fuel(last_value, 2);
    if pairs.len() == 0 {
        assert(all =~= seq![(var, val)]);
        assert(all.drop_last() =~= Seq::<(LispObject, LispObject)>::empty());
    } else {
        assert(all.drop_last() =~= seq![(var, val)] + pairs.drop_last());
        assert(all.last() == pairs.last());
        lemma_last_value(var, val, pairs.drop_last(), sym);
    }
}

/// How a variable is bound does not change while the heap grows.
proof fn lemma_binds_later(
    n: Memory,
    m: Memory,
    newenv: LispObject,
    lexenv: LispObject,
    var: LispObject,
)
    requires
        m.well_formed(),
        n.extends(m),
        n.symbols == m.symbols,
        n.lexenv == m.lexenv,
        newenv.is_nil() == lexenv.is_nil(),
    ensures
        n.binds_lexically(newenv, var) == m.binds_lexically(lexenv, var),
{
    crate::laws::memory::lemma_roots(m);
    crate::laws::memory::lemma_extended_memq(n, m, var, m.lexenv);
}

/// The bindings from number `k` on.
proof fn lemma_skip(b: Bindings, k: nat)
    requires
        k <= b.pairs().len(),
    ensures
        b.skip(k).pairs() == b.pairs().skip(k as int),
        match b.skip(k) {
            Bindings::Bind { var, val, rest } => k < b.pairs().len() && (var, val)
                == b.pairs()[k as int] && *rest == b.skip(k + 1),
            Bindings::Empty => k == b.pairs().len(),
        },
    decreases b,
{
    reveal_with_fuel(Bindings::skip, 2);
    if let Bindings::Bind { var, val, rest } = b {
        if k > 0 {
            lemma_skip(*rest, (k - 1) as nat);
            assert(b.pairs().skip(k as int) =~= rest.pairs().skip(k - 1));
        } else {
            assert(b.pairs().skip(0) =~= b.pairs());
        }
    } else {
        assert(b.pairs().skip(k as int) =~= b.pairs());
    }
}

proof fn lemma_let_dynamic(
    m: Memory,
    pending: Bindings,
    body: LispObject,
    count: i64,
    answers: Seq<Answer>,
)
    requires
        m.lexenv.is_nil(),
        forall|k: int| 0 <= k < answers.len() ==> (#[trigger] answers[k]).memory.lexenv.is_nil(),
        answers.len() <= pending.pairs().len(),
    ensures
        ({
            let here = if answers.len() > 0 {
                answers.last().memory
            } else {
                m
            };
            m.let_bind(LispObject::nil(), pending, body, count).1.after(answers) == here.let_bind(
                LispObject::nil(),
                pending.skip(answers.len()),
                body,
                count,
            ).1
        }),
    decreases answers.len(),
{
    if answers.len() > 0 {
        let before = answers.drop_last();
        assert forall|k: int| 0 <= k < before.len() implies (
        #[trigger] before[k]).memory.lexenv.is_nil() by {
            assert(before[k] == answers[k]);
        }
        lemma_let_dynamic(m, pending, body, count, before);
        lemma_skip(pending, before.len());
        assert(answers[answers.len() - 1].memory.lexenv.is_nil());
    }
}

/// The value form before the place `p`.
proof fn lemma_previous_form(decls: Seq<LetBinding>, p: int) -> (q: int)
    requires
        0 <= p <= decls.len(),
        forms(decls.take(p)) > 0,
    ensures
        0 <= q < p,
        decls[q] is Form,
        forms(decls.take(q)) + 1 == forms(decls.take(p)),
        forall|i: int| q < i < p ==> !(#[trigger] decls[i] is Form),
    decreases p,
{
    if p == 0 {
        0
    } else {
        assert(decls.take(p).drop_last() =~= decls.take(p - 1));
        if decls[p - 1] is Form {
            p - 1
        } else {
            lemma_previous_form(decls, p - 1)
        }
    }
}

/// Where no value form comes before the place `p`, none of the elements has one.
proof fn lemma_no_form(decls: Seq<LetBinding>, p: int, i: int)
    requires
        0 <= i < p <= decls.len(),
        forms(decls.take(p)) == 0,
    ensures
        !(decls[i] is Form),
    decreases p,
{
    assert(decls.take(p).drop_last() =~= decls.take(p - 1));
    if i < p - 1 {
        lemma_no_form(decls, p - 1, i);
    }
}

/// What is gathered does not depend on later answers.
proof fn lemma_gathered_earlier(decls: Seq<LetBinding>, before: Seq<Answer>, answers: Seq<Answer>)
    requires
        forms(decls) <= before.len() <= answers.len(),
        forall|k: int| 0 <= k < before.len() ==> #[trigger] before[k] == answers[k],
    ensures
        gathered(decls, before) == gathered(decls, answers),
    decreases decls.len(),
{
    if decls.len() > 0 {
        lemma_gathered_earlier(decls.drop_last(), before, answers);
        if decls.last() is Form {
            let k = forms(decls.drop_last()) as int;
            assert(before[k] == answers[k]);
        }
    }
}

/// In the opposite order, what is gathered is what is declared.
proof fn lemma_gathered_pairs(decls: Seq<LetBinding>, answers: Seq<Answer>, tail: Bindings)
    ensures
        gathered(decls, answers).reversed_onto(tail).pairs() == declared(decls, answers)
            + tail.pairs(),
    decreases decls.len(),
{
    if decls.len() == 0 {
        assert(declared(decls, answers) + tail.pairs() =~= tail.pairs());
    } else {
        let earlier = gathered(decls.drop_last(), answers);
        let (var, val) = declared(decls, answers).last();
        let next = Bindings::Bind { var, val, rest: Box::new(tail) };
        lemma_gathered_pairs(decls.drop_last(), answers, next);
        assert(declared(decls.drop_last(), answers) + next.pairs() =~= declared(decls, answers)
            + tail.pairs());
    }
}

/// `let` passes over the elements without a value form.
proof fn lemma_let_walk(
    m: Memory,
    spine: Seq<LispObject>,
    items: Seq<LispObject>,
    decls: Seq<LetBinding>,
    scope: Scope,
    i: int,
    p: int,
    answers: Seq<Answer>,
)
    requires
        m.holds(spine, items),
        spine.last().is_nil(),
        m.declares(items, decls),
        0 <= i <= p <= items.len(),
        forall|j: int| i <= j < p ==> !(#[trigger] decls[j] is Form),
        p < items.len() ==> decls[p] is Form,
    ensures
        ({
            let known = gathered(decls.take(p), answers);
            m.let_step(
                Scope { rest: spine[i], ..scope },
                gathered(decls.take(i), answers),
            ) == if p < items.len() {
                (
                    m,
                    Step::Call(
                        Request::Eval { form: decls[p]->form },
                        Frame::LetValue {
                            scope: Scope { rest: spine[p + 1], ..scope },
                            var: decls[p]->Form_var,
                            values: known,
                        },
                    ),
                )
            } else {
                m.let_bind(
                    scope.lexenv,
                    known.reversed_onto(Bindings::Empty),
                    scope.body,
                    scope.count,
                )
            }
        }),
    decreases p - i,
{
    crate::trace::lemma_holds_end(m, spine, items, i);
    let here = Scope { rest: spine[i], ..scope };
    let known = gathered(decls.take(i), answers);
    if i < items.len() {
        assert(m.cons(spine[i]) == Some(Cons { car: items[i], cdr: spine[i + 1] }));
        assert(m.let_binding_value(items[i]) == Ok::<LetBinding, LispError>(decls[i]));
    }
    if i < p {
        assert(!(decls[i] is Form));
        assert(decls.take(i + 1).drop_last() =~= decls.take(i));
        crate::trace::lemma_holds_end(m, spine, items, i + 1);
        lemma_let_walk(m, spine, items, decls, scope, i + 1, p, answers);
    }
}

/// A `let` or `let*` form on its way from the depth `count`, or at its end.
spec fn in_let(step: Step, count: i64) -> bool {
    match step {
        Step::Call(_, Frame::LetStarPolled { scope, .. }) => scope.count == count,
        Step::Call(_, Frame::LetStarValue { scope, .. }) => scope.count == count,
        Step::Call(_, Frame::LetStarBound { scope }) => scope.count == count,
        Step::Call(Request::Eval { .. }, Frame::LetValue { scope, .. }) => scope.count == count,
        Step::Call(Request::Specbind { .. }, Frame::LetBound { count: c, .. }) => c == count,
        Step::Call(Request::Specbind { .. }, Frame::LetEntered { count: c, .. }) => c == count,
        Step::Call(Request::Eval { .. }, Frame::Progn { after, .. }) => after == (After::Unbind {
            count,
        }),
        Step::Call(Request::UnbindTo { count: c, .. }, Frame::Return) => c == count,
        Step::Call(_, _) => false,
        Step::Done(_) => true,
        Step::Fail(_) => true,
    }
}

/// The same, past its value forms.
spec fn let_bound(step: Step, count: i64) -> bool {
    in_let(step, count) && !(step matches Step::Call(_, Frame::LetValue { .. }))
}

proof fn lemma_let_bind_starts(
    m: Memory,
    lexenv: LispObject,
    pending: Bindings,
    body: LispObject,
    count: i64,
)
    ensures
        let_bound(m.let_bind(lexenv, pending, body, count).1, count),
        !(m.let_bind(lexenv, pending, body, count).1 is Done),
    decreases pending,
{
    if let Bindings::Bind { var, val, rest } = pending {
        let (n, newenv) = m.extended(var, val, lexenv);
        lemma_let_bind_starts(n, newenv, *rest, body, count);
    }
}

proof fn lemma_let_values_start(m: Memory, scope: Scope, n: nat, values: Bindings)
    ensures
        in_let(m.let_values(scope, n, values).1, scope.count),
        !(m.let_values(scope, n, values).1 is Done),
    decreases n,
{
    lemma_let_bind_starts(
        m,
        scope.lexenv,
        values.reversed_onto(Bindings::Empty),
        scope.body,
        scope.count,
    );
    if let Some(cell) = m.cons(scope.rest) {
        if n > 0 {
            if let Ok(LetBinding::Unset { var }) = m.let_binding_value(cell.car) {
                lemma_let_values_start(
                    m,
                    Scope { rest: cell.cdr, ..scope },
                    (n - 1) as nat,
                    Bindings::Bind { var, val: LispObject::nil(), rest: Box::new(values) },
                );
            }
        }
    }
}

proof fn lemma_let_starts(m: Memory, scope: Scope, values: Bindings)
    ensures
        in_let(m.let_step(scope, values).1, scope.count),
        !(m.let_step(scope, values).1 is Done),
{
    if let Some((n, _)) = m.list_end(scope.rest) {
        lemma_let_values_start(m, scope, n, values);
    }
}

/// An answer leaves a `let` form past its value forms past its value forms.
proof fn lemma_let_turn(m: Memory, request: Request, frame: Frame, count: i64, reply: LispObject)
    requires
        in_let(Step::Call(request, frame), count),
    ensures
        in_let(m.resumed(frame, reply).1, count),
        let_bound(Step::Call(request, frame), count) ==> let_bound(
            m.resumed(frame, reply).1,
            count,
        ),
        m.resumed(frame, reply).1 is Done ==> request is UnbindTo && m.resumed(frame, reply).1
            == Step::Done(reply),
{
    match frame {
        Frame::LetValue { scope, var, values } => {
            lemma_let_starts(
                m,
                scope,
                Bindings::Bind { var, val: reply, rest: Box::new(values) },
            );
        },
        Frame::LetBound { lexenv, pending, body, count } => {
            lemma_let_bind_starts(m, lexenv, pending, body, count);
        },
        _ => {},
    }
}

proof fn lemma_in_let(start: Step, count: i64, answers: Seq<Answer>)
    requires
        in_let(start, count),
    ensures
        in_let(start.after(answers), count),
    decreases answers.len(),
{
    if answers.len() > 0 {
        lemma_in_let(start, count, answers.drop_last());
        if let Step::Call(request, frame) = start.after(answers.drop_last()) {
            lemma_let_turn(answers.last().memory, request, frame, count, answers.last().reply);
        }
    }
}

proof fn lemma_let_bound(start: Step, count: i64, answers: Seq<Answer>)
    requires
        let_bound(start, count),
    ensures
        let_bound(start.after(answers), count),
    decreases answers.len(),
{
    if answers.len() > 0 {
        lemma_let_bound(start, count, answers.drop_last());
        if let Step::Call(request, frame) = start.after(answers.drop_last()) {
            lemma_let_turn(answers.last().memory, request, frame, count, answers.last().reply);
        }
    }
}

proof fn lemma_unbinds(start: Step, count: i64, answers: Seq<Answer>) -> (k: int)
    requires
        in_let(start, count),
        !(start is Done),
        start.after(answers) is Done,
    ensures
        returns_unbound(start, count, answers, k),
    decreases answers.len(),
{
    let before = answers.drop_last();
    lemma_in_let(start, count, before);
    if let Step::Call(request, frame) = start.after(before) {
        let last = answers[answers.len() - 1];
        lemma_let_turn(last.memory, request, frame, count, last.reply);
        assert(before =~= answers.take(answers.len() - 1));
        answers.len() - 1
    } else {
        let k = lemma_unbinds(start, count, before);
        assert(before.take(k) =~= answers.take(k));
        k
    }
}

} // verus!

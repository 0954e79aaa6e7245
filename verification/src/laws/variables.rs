//! Setting and defining variables over a whole run.
use vstd::prelude::*;
use crate::errors::LispError;
use crate::heap::{Cons, Memory};
use crate::machine::{Frame, Request, Step};
use crate::object::{
    LispObject, LispSymbolRef, QRISKY_LOCAL_VARIABLE, QSETQ, QVARIABLE_DOCUMENTATION,
};
use crate::trace::Answer;

verus! {

impl Memory {
    /// The variable `sym` is lexically bound.
    pub open spec fn bound_lexically(self, sym: LispObject) -> bool {
        self.lexical_binding(sym) matches Ok(binding) && self.cons(binding) is Some
    }

    /// The variables among `items` can be looked up in the lexical environment, and
    /// no binding is at the same time one of the cells of the list `spine`.
    pub open spec fn settable(self, spine: Seq<LispObject>, items: Seq<LispObject>) -> bool {
        forall|i: int|
            0 <= i < items.len() ==> (self.lexical_binding(#[trigger] items[i]) matches Ok(binding)
                && !spine.contains(binding))
    }
}

/// How many answers `setq` takes for the first `p` variables of its arguments
/// `items`: the value for each, and one more for each that is not lexically bound.
pub open spec fn setq_asked(items: Seq<LispObject>, answers: Seq<Answer>, p: nat) -> int
    decreases p,
{
    if p == 0 {
        0
    } else {
        let a = setq_asked(items, answers, (p - 1) as nat);
        if answers[a].memory.bound_lexically(items[2 * p - 2]) {
            a + 1
        } else {
            a + 2
        }
    }
}

/// `setq` at the argument number `n`, after the value `val`: it asks for the value of
/// the next variable, or is at its end.
pub open spec fn setq_at(
    spine: Seq<LispObject>,
    items: Seq<LispObject>,
    n: int,
    val: LispObject,
) -> Step {
    if n + 1 < items.len() {
        Step::Call(
            Request::Eval { form: items[n + 1] },
            Frame::SetqValue {
                list: spine[0],
                rest: spine[n + 2],
                sym: items[n],
                nargs: n as usize,
            },
        )
    } else if n + 1 == items.len() {
        Step::Fail(
            LispError::WrongNumberOfArguments { function: QSETQ, count: items.len() as usize },
        )
    } else {
        Step::Done(val)
    }
}

/// `setq` evaluates the first value form, sets the first variable to what it yields,
/// evaluates the second value form, and so on: with the answers for the first `p`
/// variables, and not before, it asks for the value of the next one. It returns the
/// value of the last value form. A variable without a value form is an error that
/// tells the number of arguments, once the variables in front of it are set.
pub proof fn law_setq(
    m: Memory,
    spine: Seq<LispObject>,
    items: Seq<LispObject>,
    p: nat,
    answers: Seq<Answer>,
)
    requires
        m.holds(spine, items),
        spine.last().is_nil(),
        items.len() <= usize::MAX,
        crate::trace::kept(answers, spine, items),
        forall|k: int| 0 <= k < answers.len() ==> (#[trigger] answers[k]).memory.settable(
            spine,
            items,
        ),
        2 * p <= items.len(),
        setq_asked(items, answers, p) <= answers.len(),
    ensures
        m.setq_step(spine[0], spine[0], spine[0], 0).after(
            answers.take(setq_asked(items, answers, p)),
        ) == setq_at(
            spine,
            items,
            2 * p as int,
            if p > 0 {
                answers[setq_asked(items, answers, (p - 1) as nat)].reply
            } else {
                LispObject::nil()
            },
        ),
    decreases p,
{
    let start = m.setq_step(spine[0], spine[0], spine[0], 0);
    if p == 0 {
        lemma_setq_at(m, spine, items, 0, spine[0]);
        assert(answers.take(0) =~= Seq::<Answer>::empty());
        if items.len() == 0 {
            assert(spine[0] == spine.last());
        }
    } else {
        let q = (p - 1) as nat;
        let a = setq_asked(items, answers, q);
        lemma_setq_asked(items, answers, q);
        law_setq(m, spine, items, q, answers);
        assert(answers[a].memory.holds(spine, items));
        assert(answers[a].memory.settable(spine, items));
        if a + 1 < answers.len() {
            assert(answers[a + 1].memory.holds(spine, items));
        }
        lemma_setq_pair(start, spine, items, q, answers, a);
    }
}

/// `setq` from one variable to the next.
proof fn lemma_setq_pair(
    start: Step,
    spine: Seq<LispObject>,
    items: Seq<LispObject>,
    q: nat,
    answers: Seq<Answer>,
    a: int,
)
    requires
        spine.last().is_nil(),
        items.len() <= usize::MAX,
        2 * q + 1 < items.len(),
        0 <= a < answers.len(),
        start.after(answers.take(a)) == setq_at(spine, items, 2 * q as int, spine[0]),
        answers[a].memory.holds(spine, items),
        answers[a].memory.settable(spine, items),
        !answers[a].memory.bound_lexically(items[2 * q as int]) ==> a + 1 < answers.len()
            && answers[a + 1].memory.holds(spine, items),
    ensures
        start.after(
            answers.take(
                if answers[a].memory.bound_lexically(items[2 * q as int]) {
                    a + 1
                } else {
                    a + 2
                },
            ),
        ) == setq_at(spine, items, 2 * q as int + 2, answers[a].reply),
{
    let n = 2 * q as int;
    let here = answers[a].memory;
    let val = answers[a].reply;
    crate::trace::lemma_one_more(start, answers, a);
    lemma_setq_stored(here, spine, items, q, val);
    let frame = Frame::SetqValue {
        list: spine[0],
        rest: spine[n + 2],
        sym: items[n],
        nargs: n as usize,
    };
    assert(start.after(answers.take(a)) == Step::Call(Request::Eval { form: items[n + 1] }, frame));
    assert(start.after(answers.take(a + 1)) == here.resumed(frame, val).1);
    if !here.bound_lexically(items[n]) {
        crate::trace::lemma_one_more(start, answers, a + 1);
        lemma_setq_at(answers[a + 1].memory, spine, items, n + 2, val);
    }
}

/// A variable that is not lexically bound is set by a request, with the value that
/// its value form has yielded.
pub proof fn law_setq_dynamic(
    m: Memory,
    spine: Seq<LispObject>,
    items: Seq<LispObject>,
    p: nat,
    answers: Seq<Answer>,
)
    requires
        m.holds(spine, items),
        spine.last().is_nil(),
        items.len() <= usize::MAX,
        crate::trace::kept(answers, spine, items),
        forall|k: int| 0 <= k < answers.len() ==> (#[trigger] answers[k]).memory.settable(
            spine,
            items,
        ),
        2 * p + 1 < items.len(),
        setq_asked(items, answers, p) < answers.len(),
        !answers[setq_asked(items, answers, p)].memory.bound_lexically(items[2 * p as int]),
    ensures
        ({
            let a = setq_asked(items, answers, p);
            m.setq_step(spine[0], spine[0], spine[0], 0).after(answers.take(a + 1)) == Step::Call(
                Request::SetValue { sym: items[2 * p as int], val: answers[a].reply },
                Frame::SetqStored {
                    list: spine[0],
                    rest: spine[2 * p as int + 2],
                    val: answers[a].reply,
                    nargs: (2 * p + 2) as usize,
                },
            )
        }),
{
    let start = m.setq_step(spine[0], spine[0], spine[0], 0);
    let a = setq_asked(items, answers, p);
    lemma_setq_asked(items, answers, p);
    law_setq(m, spine, items, p, answers);
    crate::trace::lemma_one_more(start, answers, a);
    assert(answers[a].memory.holds(spine, items));
    assert(answers[a].memory.settable(spine, items));
    lemma_setq_stored(answers[a].memory, spine, items, p, answers[a].reply);
}

/// The two steps of `setq` are the same but for the list and the number of arguments
/// that an error would tell.
pub open spec fn setq_alike(step: Step, other: Step) -> bool {
    match (step, other) {
        (
            Step::Call(request, Frame::SetqValue { rest, sym, .. }),
            Step::Call(same, Frame::SetqValue { rest: r, sym: s, .. }),
        ) => request == same && rest == r && sym == s,
        (
            Step::Call(request, Frame::SetqStored { rest, val, .. }),
            Step::Call(same, Frame::SetqStored { rest: r, val: v, .. }),
        ) => request == same && rest == r && val == v,
        (Step::Done(value), Step::Done(same)) => value == same,
        (Step::Fail(_), Step::Fail(_)) => true,
        _ => false,
    }
}

/// `setq` of (SYM VAL . REST) runs as `setq` of (SYM VAL) and after that `setq` of REST,
/// which gives the value: it makes the same requests and leaves the same heap, whatever
/// the forms do to the lists in between, as long as the first cell of REST is still
/// there when its turn comes. `early` are the answers for SYM, `late` those for REST.
/// An error in REST may tell another list or another number of arguments. `setq` of
/// nothing is nil.
pub proof fn law_setq_one_by_one(
    m: Memory,
    whole: (LispObject, Cons, Cons),
    one: (LispObject, Cons, Cons),
    early: Seq<Answer>,
    late: Seq<Answer>,
)
    requires
        m.cons(whole.0) == Some(whole.1),
        m.cons(whole.1.cdr) == Some(whole.2),
        m.list_end(whole.0) is Some,
        m.cons(one.0) == Some(one.1),
        m.cons(one.1.cdr) == Some(one.2),
        one.1.car == whole.1.car,
        one.2 == (Cons { car: whole.2.car, cdr: LispObject::nil() }),
        early.len() > 0 ==> m.setq_step(one.0, one.0, one.0, 0).after(early.drop_last()) is Call,
    ensures
        ({
            let all = m.setq_step(whole.0, whole.0, whole.0, 0);
            let first = m.setq_step(one.0, one.0, one.0, 0);
            let here = first.left(m, early);
            let next = here.setq_step(whole.2.cdr, whole.2.cdr, whole.2.cdr, 0);
            &&& all.left(m, early) == here
            &&& !(first.after(early) is Done) ==> all.after(early).alike(first.after(early))
            &&& first.after(early) is Done ==> first.after(early) == Step::Done(early[0].reply)
            &&& first.after(early) is Done && here.cons(whole.2.cdr) is Some ==> setq_alike(
                all.after(early + late),
                next.after(late),
            ) && all.left(m, early + late) == next.left(here, late)
        }),
        m.setq_step(LispObject::nil(), LispObject::nil(), LispObject::nil(), 0) == Step::Done(
            LispObject::nil(),
        ),
{
    let all = m.setq_step(whole.0, whole.0, whole.0, 0);
    let first = m.setq_step(one.0, one.0, one.0, 0);
    let here = first.left(m, early);
    let next = here.setq_step(whole.2.cdr, whole.2.cdr, whole.2.cdr, 0);
    lemma_setq_first(m, whole, one, early);
    if first.after(early) is Done && here.cons(whole.2.cdr) is Some {
        lemma_setq_alike(all.after(early), next, here, late);
        crate::trace::lemma_after_split(all, early, late);
        if late.len() > 0 {
            assert((early + late).drop_last() =~= early + late.drop_last());
            assert((early + late).last() == late.last());
            crate::trace::lemma_after_split(all, early, late.drop_last());
        } else {
            assert(early + late =~= early);
        }
    }
}

/// The run of `setq` up to the end of its first variable.
proof fn lemma_setq_first(
    m: Memory,
    whole: (LispObject, Cons, Cons),
    one: (LispObject, Cons, Cons),
    early: Seq<Answer>,
)
    requires
        m.cons(whole.0) == Some(whole.1),
        m.cons(whole.1.cdr) == Some(whole.2),
        m.list_end(whole.0) is Some,
        m.cons(one.0) == Some(one.1),
        m.cons(one.1.cdr) == Some(one.2),
        one.1.car == whole.1.car,
        one.2 == (Cons { car: whole.2.car, cdr: LispObject::nil() }),
        early.len() > 0 ==> m.setq_step(one.0, one.0, one.0, 0).after(early.drop_last()) is Call,
    ensures
        ({
            let all = m.setq_step(whole.0, whole.0, whole.0, 0);
            let first = m.setq_step(one.0, one.0, one.0, 0);
            let here = first.left(m, early);
            &&& all.left(m, early) == here
            &&& match first.after(early) {
                Step::Done(val) => early.len() > 0 && val == early[0].reply && all.after(early)
                    == here.setq_step(whole.0, whole.2.cdr, val, 2),
                Step::Fail(_) => all.after(early) == first.after(early),
                Step::Call(request, Frame::SetqValue { sym, .. }) => early.len() == 0 && sym
                    == one.1.car && all.after(early) == Step::Call(
                    request,
                    Frame::SetqValue { list: whole.0, rest: whole.2.cdr, sym, nargs: 0 },
                ),
                Step::Call(request, Frame::SetqStored { val, .. }) => early.len() == 1 && val
                    == early[0].reply && all.after(early) == Step::Call(
                    request,
                    Frame::SetqStored { list: whole.0, rest: whole.2.cdr, val, nargs: 2 },
                ),
                _ => false,
            }
            &&& first.after(early) matches Step::Call(_, Frame::SetqValue { list, rest, nargs, .. })
                ==> list == one.0 && rest.is_nil() && nargs == 0
            &&& first.after(early) matches Step::Call(
                _,
                Frame::SetqStored { list, rest, nargs, .. },
            ) ==> list == one.0 && rest.is_nil() && nargs == 2
        }),
    decreases early.len(),
{
    if early.len() == 0 {
        lemma_list_of_two(m, one.0, one.1, one.2);
        lemma_rest_ends(m, whole.0, whole.1);
    } else {
        let before = early.drop_last();
        let first = m.setq_step(one.0, one.0, one.0, 0);
        assert(before.len() > 0 ==> first.after(before.drop_last()) is Call);
        lemma_setq_first(m, whole, one, before);
        if before.len() > 0 {
            assert(before[0] == early[0]);
        }
    }
}

/// A list of two elements has an end, and so has its rest.
proof fn lemma_list_of_two(m: Memory, list: LispObject, first: Cons, second: Cons)
    requires
        m.cons(list) == Some(first),
        m.cons(first.cdr) == Some(second),
        second.cdr.is_nil(),
    ensures
        m.list_end(list) is Some,
        m.list_end(first.cdr) is Some,
{
    reveal_with_fuel(Memory::tail, 3);
    assert(m.ends_after(list, 2));
    crate::lists::lemma_list_end(m, list, 2);
    assert(m.ends_after(first.cdr, 1));
    crate::lists::lemma_list_end(m, first.cdr, 1);
}

/// The rest of a list that has an end has one.
proof fn lemma_rest_ends(m: Memory, list: LispObject, first: Cons)
    requires
        m.cons(list) == Some(first),
        m.list_end(list) is Some,
    ensures
        m.list_end(first.cdr) is Some,
{
    crate::lists::lemma_rest_end(m, list, first.car, first.cdr);
}

/// Steps of `setq` that are alike stay alike, and leave the same heap.
proof fn lemma_setq_alike(step: Step, other: Step, m: Memory, answers: Seq<Answer>)
    requires
        setq_alike(step, other),
    ensures
        setq_alike(step.after(answers), other.after(answers)),
        step.left(m, answers) == other.left(m, answers),
    decreases answers.len(),
{
    if answers.len() > 0 {
        let before = answers.drop_last();
        let last = answers.last();
        lemma_setq_alike(step, other, m, before);
        if let (Step::Call(request, frame), Step::Call(r, same)) = (
            step.after(before),
            other.after(before),
        ) {
            lemma_setq_turn(last.memory, request, frame, r, same, last.reply);
        }
    }
}

/// One answer leaves steps of `setq` that are alike alike.
proof fn lemma_setq_turn(
    m: Memory,
    request: Request,
    frame: Frame,
    r: Request,
    same: Frame,
    reply: LispObject,
)
    requires
        setq_alike(Step::Call(request, frame), Step::Call(r, same)),
    ensures
        m.resumed(frame, reply).0 == m.resumed(same, reply).0,
        setq_alike(m.resumed(frame, reply).1, m.resumed(same, reply).1),
{
    match (frame, same) {
        (
            Frame::SetqValue { list, rest, sym, nargs },
            Frame::SetqValue { list: l, rest: _, sym: _, nargs: n },
        ) => {
            if let Ok(binding) = m.lexical_binding(sym) {
                lemma_setq_step_alike(
                    m.with_cdr(binding, reply),
                    list,
                    l,
                    rest,
                    reply,
                    nargs.wrapping_add(2),
                    n.wrapping_add(2),
                );
            }
        },
        (
            Frame::SetqStored { list, rest, val, nargs },
            Frame::SetqStored { list: l, rest: _, val: _, nargs: n },
        ) => {
            lemma_setq_step_alike(m, list, l, rest, val, nargs, n);
        },
        _ => {},
    }
}

proof fn lemma_setq_step_alike(
    m: Memory,
    list: LispObject,
    other: LispObject,
    rest: LispObject,
    val: LispObject,
    nargs: usize,
    n: usize,
)
    ensures
        setq_alike(m.setq_step(list, rest, val, nargs), m.setq_step(other, rest, val, n)),
{
}

/// What `setq` does with the value for its first variable leaves the argument list as
/// it is, and the heap with that value.
proof fn lemma_setq_kept(
    m: Memory,
    spine: Seq<LispObject>,
    items: Seq<LispObject>,
    q: nat,
    val: LispObject,
)
    requires
        m.holds(spine, items),
        spine.last().is_nil(),
        items.len() <= usize::MAX,
        m.settable(spine, items),
        2 * q + 1 < items.len(),
    ensures
        ({
            let n = 2 * q as int;
            let frame = Frame::SetqValue {
                list: spine[0],
                rest: spine[n + 2],
                sym: items[n],
                nargs: n as usize,
            };
            let (stored, step) = m.resumed(frame, val);
            &&& stored.holds(spine, items)
            &&& if m.bound_lexically(items[n]) {
                stored == m.with_cdr(m.lexical_binding(items[n])->Ok_0, val) && step
                    == stored.setq_step(spine[0], spine[n + 2], val, (n + 2) as usize)
            } else {
                stored == m && step == Step::Call(
                    Request::SetValue { sym: items[n], val },
                    Frame::SetqStored {
                        list: spine[0],
                        rest: spine[n + 2],
                        val,
                        nargs: (n + 2) as usize,
                    },
                )
            }
        }),
{
    let n = 2 * q as int;
    assert(m.lexical_binding(items[n]) is Ok);
    if m.bound_lexically(items[n]) {
        let stored = m.with_cdr(m.lexical_binding(items[n])->Ok_0, val);
        assert forall|i: int| 0 <= i <= items.len() implies stored.cons(#[trigger] spine[i])
            == m.cons(spine[i]) by {
            assert(spine.contains(spine[i]));
        }
    }
}

proof fn lemma_setq_asked(items: Seq<LispObject>, answers: Seq<Answer>, p: nat)
    ensures
        0 <= setq_asked(items, answers, p),
    decreases p,
{
    if p > 0 {
        lemma_setq_asked(items, answers, (p - 1) as nat);
    }
}

/// What `setq` does with the value for its variable number `q`.
proof fn lemma_setq_stored(
    m: Memory,
    spine: Seq<LispObject>,
    items: Seq<LispObject>,
    q: nat,
    val: LispObject,
)
    requires
        m.holds(spine, items),
        spine.last().is_nil(),
        items.len() <= usize::MAX,
        m.settable(spine, items),
        2 * q + 1 < items.len(),
    ensures
        ({
            let n = 2 * q as int;
            let frame = Frame::SetqValue {
                list: spine[0],
                rest: spine[n + 2],
                sym: items[n],
                nargs: n as usize,
            };
            if m.bound_lexically(items[n]) {
                m.resumed(frame, val).1 == setq_at(spine, items, n + 2, val)
            } else {
                m.resumed(frame, val).1 == Step::Call(
                    Request::SetValue { sym: items[n], val },
                    Frame::SetqStored {
                        list: spine[0],
                        rest: spine[n + 2],
                        val,
                        nargs: (n + 2) as usize,
                    },
                )
            }
        }),
{
    let n = 2 * q as int;
    lemma_setq_kept(m, spine, items, q, val);
    if m.bound_lexically(items[n]) {
        let stored = m.with_cdr(m.lexical_binding(items[n])->Ok_0, val);
        lemma_setq_at(stored, spine, items, n + 2, val);
    }
}

/// `setq` at the argument number `n`.
proof fn lemma_setq_at(
    m: Memory,
    spine: Seq<LispObject>,
    items: Seq<LispObject>,
    n: int,
    val: LispObject,
)
    requires
        m.holds(spine, items),
        spine.last().is_nil(),
        items.len() <= usize::MAX,
        0 <= n <= items.len(),
    ensures
        m.setq_step(spine[0], spine[n], val, n as usize) == setq_at(spine, items, n, val),
{
    crate::trace::lemma_holds_end(m, spine, items, n);
    if n < items.len() {
        assert(m.cons(spine[n]) is Some);
        crate::trace::lemma_holds_end(m, spine, items, n + 1);
        if n + 1 < items.len() {
            assert(m.cons(spine[n + 1]) is Some);
        }
    }
}

/// Where a variable is lexically bound, `setq` changes that binding and asks for
/// nothing: the environment is the same, and the variable has the new value in it.
/// It may not be that the binding is at the same time one of the cells that the
/// environment is made of, in front of itself.
pub proof fn law_setq_lexical(
    m: Memory,
    list: LispObject,
    rest: LispObject,
    sym: LispObject,
    nargs: usize,
    val: LispObject,
    binding: LispObject,
)
    requires
        m.lexical_binding(sym) == Ok::<LispObject, LispError>(binding),
        m.cons(binding) is Some,
        forall|k: nat| #[trigger]
            m.tail(m.lexenv, k) == Some(binding) ==> exists|n: nat|
                n <= k && m.assq_at(sym, m.lexenv, n),
    ensures
        ({
            let (stored, step) = m.setq_store(list, rest, sym, nargs, val);
            &&& step == stored.setq_step(list, rest, val, nargs.wrapping_add(2))
            &&& stored == m.with_cdr(binding, val)
            &&& stored.lexical_binding(sym) == Ok::<LispObject, LispError>(binding)
            &&& stored.cons(binding) matches Some(cell) && cell.cdr == val && cell.car == sym
        }),
{
    let stored = m.with_cdr(binding, val);
    let env = m.lexenv;
    let n = crate::lists::lemma_assq_cell(m, sym, env);
    assert forall|k: nat| k <= n implies stored.tail(env, k) == m.tail(env, k) by {
        lemma_tails_kept(m, sym, binding, val, n, k);
    }
    assert forall|k: nat| k <= n implies stored.assq_at(sym, env, k) == m.assq_at(sym, env, k) by {
        crate::lists::lemma_tail_shorter(m, env, k, n);
        assert(stored.tail(env, k) == m.tail(env, k));
    }
    crate::lists::lemma_assq_found(stored, sym, env, n);
}

/// Up to the binding that is found first, the environment stays as it is.
proof fn lemma_tails_kept(
    m: Memory,
    sym: LispObject,
    binding: LispObject,
    val: LispObject,
    n: nat,
    k: nat,
)
    requires
        k <= n,
        m.assq_at(sym, m.lexenv, n),
        forall|j: nat| j < n ==> !m.assq_at(sym, m.lexenv, j),
        forall|j: nat| #[trigger]
            m.tail(m.lexenv, j) == Some(binding) ==> exists|i: nat|
                i <= j && m.assq_at(sym, m.lexenv, i),
    ensures
        m.with_cdr(binding, val).tail(m.lexenv, k) == m.tail(m.lexenv, k),
    decreases k,
{
    if k > 0 {
        let j = (k - 1) as nat;
        lemma_tails_kept(m, sym, binding, val, n, j);
        assert(m.tail(m.lexenv, j) != Some(binding));
    }
}

/// Where `defconst` is after the `answers`: `items` are its arguments, `pure` says
/// whether the purify flag is on.
pub open spec fn defconst_course(
    items: Seq<LispObject>,
    pure: bool,
    answers: Seq<Answer>,
) -> Step {
    let n = answers.len() as int;
    let sym = items[0];
    let docstring = if items.len() > 2 {
        items[2]
    } else {
        LispObject::nil()
    };
    let copies: int = if pure {
        1
    } else {
        0
    };
    let described = 2 + copies + if docstring.is_nil() {
        0
    } else {
        1 + copies
    };
    if n == 0 {
        Step::Call(Request::Eval { form: items[1] }, Frame::DefconstValue { sym, docstring })
    } else if n < 1 + copies {
        Step::Call(
            Request::Purecopy { obj: answers[0].reply },
            Frame::DefconstPure { sym, docstring },
        )
    } else if n == 1 + copies {
        Step::Call(
            Request::SetDefault { sym, val: answers[n - 1].reply },
            Frame::DefconstStored { sym, docstring },
        )
    } else if n < described - 1 {
        Step::Call(Request::Purecopy { obj: docstring }, Frame::DefconstDoc { sym })
    } else if n < described {
        Step::Call(
            Request::Put {
                sym,
                prop: LispObject::Symbol(QVARIABLE_DOCUMENTATION),
                val: if pure {
                    answers[n - 1].reply
                } else {
                    docstring
                },
            },
            Frame::DefconstRisky { sym },
        )
    } else if n == described {
        Step::Call(
            Request::Put {
                sym,
                prop: LispObject::Symbol(QRISKY_LOCAL_VARIABLE),
                val: LispObject::t(),
            },
            Frame::DefconstHistory { sym },
        )
    } else if n == described + 1 {
        Step::Call(Request::LoadhistAttach { sym }, Frame::Answer { value: sym })
    } else {
        Step::Done(sym)
    }
}

/// `defconst` evaluates the initial value, makes what that yields the default value
/// of the symbol, records the documentation if there is any, marks the variable as
/// risky, notes the definition in the load history, and returns the symbol. With
/// the purify flag on, the value and the documentation are copied first.
pub proof fn law_defconst(
    m: Memory,
    spine: Seq<LispObject>,
    items: Seq<LispObject>,
    pure: bool,
    answers: Seq<Answer>,
)
    requires
        m.holds(spine, items),
        spine.last().is_nil(),
        2 <= items.len() <= 3,
        items[0] is Symbol,
        forall|k: int|
            0 <= k < answers.len() ==> (#[trigger] answers[k]).memory.purify_flag.is_nil() == !pure,
    ensures
        m.defconst(spine[0]).after(answers) == defconst_course(items, pure, answers),
    decreases answers.len(),
{
    if answers.len() == 0 {
        assert(m.cons(spine[0]) is Some);
        assert(m.cons(spine[1]) is Some);
        if items.len() == 3 {
            assert(m.cons(spine[2]) is Some);
        }
    } else {
        let before = answers.drop_last();
        law_defconst(m, spine, items, pure, before);
        assert(answers[answers.len() - 1].memory.purify_flag.is_nil() == !pure);
    }
}

/// A definition with more than three parts is refused before anything is evaluated.
pub proof fn law_defconst_too_many(m: Memory, spine: Seq<LispObject>, items: Seq<LispObject>)
    requires
        m.holds(spine, items),
        items.len() > 3,
    ensures
        m.defconst(spine[0]) == Step::Fail(LispError::TooManyArguments),
{
    assert(m.cons(spine[0]) is Some);
    assert(m.cons(spine[1]) is Some);
    assert(m.cons(spine[2]) is Some);
    assert(m.cons(spine[3]) is Some);
}

/// Once `defconst` has set the default value of a symbol, the symbol is special, so
/// that it is not bound lexically in any environment; no other symbol has changed.
pub proof fn law_defconst_special(
    m: Memory,
    id: usize,
    docstring: LispObject,
    lexenv: LispObject,
    other: usize,
)
    requires
        id < m.symbols.len(),
    ensures
        ({
            let defined = m.defconst_stored(LispObject::Symbol(id), docstring).0;
            &&& defined.special(id)
            &&& defined.binds_lexically(lexenv, LispObject::Symbol(id)) == Ok::<bool, LispError>(
                false,
            )
            &&& other != id ==> defined.special(other) == m.special(other)
            &&& defined.function(other) == m.function(other)
        }),
{
}

/// `make_var_non_special` takes the special flag from a symbol, and changes no
/// other symbol.
pub proof fn law_make_var_non_special(m: Memory, symbol: LispSymbolRef, other: LispSymbolRef)
    ensures
        ({
            let changed = m.with_special(symbol.id, false);
            &&& !changed.special(symbol.id)
            &&& other.id != symbol.id ==> changed.special(other.id) == m.special(other.id)
            &&& changed.function(other.id) == m.function(other.id)
        }),
{
}

} // verus!

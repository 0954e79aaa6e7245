//! Conditionals, sequencing and loops over a whole run.
use vstd::prelude::*;
use crate::heap::{Cons, Memory};
use crate::machine::{After, Frame, Request, Step};
use crate::object::LispObject;
use crate::trace::Answer;

verus! {

/// `or` evaluates its arguments in order until one yields non-nil, and returns that
/// value; the remaining arguments are not evaluated. It returns nil if all
/// arguments yield nil.
pub proof fn law_or(
    m: Memory,
    spine: Seq<LispObject>,
    items: Seq<LispObject>,
    answers: Seq<Answer>,
)
    requires
        m.holds(spine, items),
        crate::trace::kept(answers, spine, items),
        answers.len() <= items.len(),
        forall|k: int| 0 <= k < answers.len() - 1 ==> (#[trigger] answers[k]).reply.is_nil(),
    ensures
        m.or_step(spine[0]).after(answers) == if answers.len() > 0
            && !answers.last().reply.is_nil() {
            Step::Done(answers.last().reply)
        } else if answers.len() < items.len() {
            Step::Call(
                Request::Eval { form: items[answers.len() as int] },
                Frame::Or { rest: spine[answers.len() as int + 1] },
            )
        } else {
            Step::Done(LispObject::nil())
        },
    decreases answers.len(),
{
    if answers.len() > 0 {
        let before = answers.drop_last();
        crate::trace::lemma_kept_before(answers, spine, items);
        law_or(m, spine, items, before);
        if before.len() > 0 {
            assert(before.last() == answers[before.len() - 1]);
        }
    }
}

/// `and` evaluates its arguments in order until one yields nil, and returns nil;
/// the remaining arguments are not evaluated. If no argument yields nil, it
/// returns the value of the last one, and t if there is none.
pub proof fn law_and(
    m: Memory,
    spine: Seq<LispObject>,
    items: Seq<LispObject>,
    answers: Seq<Answer>,
)
    requires
        m.holds(spine, items),
        crate::trace::kept(answers, spine, items),
        answers.len() <= items.len(),
        forall|k: int| 0 <= k < answers.len() - 1 ==> !(#[trigger] answers[k]).reply.is_nil(),
    ensures
        m.and_step(spine[0], LispObject::t()).after(answers) == if answers.len() > 0
            && answers.last().reply.is_nil() {
            Step::Done(LispObject::nil())
        } else if answers.len() < items.len() {
            Step::Call(
                Request::Eval { form: items[answers.len() as int] },
                Frame::And { rest: spine[answers.len() as int + 1] },
            )
        } else if answers.len() > 0 {
            Step::Done(answers.last().reply)
        } else {
            Step::Done(LispObject::t())
        },
    decreases answers.len(),
{
    if answers.len() > 0 {
        let before = answers.drop_last();
        crate::trace::lemma_kept_before(answers, spine, items);
        law_and(m, spine, items, before);
        if before.len() > 0 {
            assert(before.last() == answers[before.len() - 1]);
        }
    }
}

/// A body is evaluated form by form, in order, all of it; what follows gets the
/// value of the last form, and nil for a body without forms.
pub proof fn law_body(
    m: Memory,
    spine: Seq<LispObject>,
    items: Seq<LispObject>,
    after: After,
    answers: Seq<Answer>,
)
    requires
        m.holds(spine, items),
        crate::trace::kept(answers, spine, items),
        answers.len() <= items.len(),
    ensures
        m.progn_step(spine[0], LispObject::nil(), after).after(answers) == if answers.len()
            < items.len() {
            Step::Call(
                Request::Eval { form: items[answers.len() as int] },
                Frame::Progn { rest: spine[answers.len() as int + 1], after },
            )
        } else if answers.len() > 0 {
            after.step(answers.last().reply)
        } else {
            after.step(LispObject::nil())
        },
    decreases answers.len(),
{
    if answers.len() > 0 {
        let before = answers.drop_last();
        crate::trace::lemma_kept_before(answers, spine, items);
        law_body(m, spine, items, after, before);
    }
}

/// `progn` evaluates the forms of its body in order and returns the value of the
/// last one, nil if there is none.
pub proof fn law_progn(
    m: Memory,
    spine: Seq<LispObject>,
    items: Seq<LispObject>,
    answers: Seq<Answer>,
)
    requires
        m.holds(spine, items),
        crate::trace::kept(answers, spine, items),
        answers.len() <= items.len(),
    ensures
        m.progn(spine[0]).after(answers) == if answers.len() < items.len() {
            Step::Call(
                Request::Eval { form: items[answers.len() as int] },
                Frame::Progn { rest: spine[answers.len() as int + 1], after: After::Value },
            )
        } else if items.len() > 0 {
            Step::Done(answers.last().reply)
        } else {
            Step::Done(LispObject::nil())
        },
{
    law_body(m, spine, items, After::Value, answers);
}

/// `progn` of an appended list runs as `progn` of its first part and after that
/// `progn` of its second part, which gives the value: it makes the same requests, and
/// changes nothing on the heap by itself.
pub proof fn law_progn_append(
    m: Memory,
    first: (Seq<LispObject>, Seq<LispObject>),
    second: (Seq<LispObject>, Seq<LispObject>),
    spine: Seq<LispObject>,
    early: Seq<Answer>,
    late: Seq<Answer>,
)
    requires
        second.1.len() > 0,
        m.holds(first.0, first.1),
        m.holds(spine, first.1 + second.1),
        crate::trace::kept(early, first.0, first.1),
        crate::trace::kept(early + late, spine, first.1 + second.1),
        crate::trace::kept(late, second.0, second.1),
        m.holds(second.0, second.1),
        early.len() > 0 ==> early.last().memory.holds(second.0, second.1),
        early.len() <= first.1.len(),
        late.len() <= second.1.len(),
        late.len() > 0 ==> early.len() == first.1.len(),
    ensures
        ({
            let whole = m.progn(spine[0]);
            let part = m.progn(first.0[0]);
            let here = if early.len() > 0 {
                early.last().memory
            } else {
                m
            };
            &&& early.len() < first.1.len() ==> whole.after(early).alike(part.after(early))
            &&& early.len() == first.1.len() ==> part.after(early) is Done && whole.after(
                early + late,
            ).alike(here.progn(second.0[0]).after(late))
            &&& whole.left(m, early) == here
            &&& part.left(m, early) == here
            &&& late.len() > 0 ==> whole.left(m, early + late) == late.last().memory && here.progn(
                second.0[0],
            ).left(here, late) == late.last().memory
        }),
{
    let items = first.1 + second.1;
    let whole = m.progn(spine[0]);
    let part = m.progn(first.0[0]);
    let here = if early.len() > 0 {
        early.last().memory
    } else {
        m
    };
    assert forall|k: int| 0 <= k < early.len() implies (#[trigger] early[k]).memory.holds(
        spine,
        items,
    ) by {
        assert((early + late)[k] == early[k]);
    }
    law_progn(m, spine, items, early);
    law_progn(m, first.0, first.1, early);
    law_progn(m, spine, items, early + late);
    law_progn(here, second.0, second.1, late);
    lemma_body_left(m, spine, items, early);
    lemma_body_left(m, first.0, first.1, early);
    lemma_body_left(m, spine, items, early + late);
    lemma_body_left(here, second.0, second.1, late);
}

/// `progn` leaves the heap as its last answer found it.
proof fn lemma_body_left(
    m: Memory,
    spine: Seq<LispObject>,
    items: Seq<LispObject>,
    answers: Seq<Answer>,
)
    requires
        m.holds(spine, items),
        crate::trace::kept(answers, spine, items),
        answers.len() <= items.len(),
    ensures
        m.progn(spine[0]).left(m, answers) == if answers.len() > 0 {
            answers.last().memory
        } else {
            m
        },
{
    if answers.len() > 0 {
        crate::trace::lemma_kept_before(answers, spine, items);
        law_progn(m, spine, items, answers.drop_last());
    }
}

/// `prog_ignore` evaluates the forms of its body in order, and drops their values.
pub proof fn law_prog_ignore(
    m: Memory,
    spine: Seq<LispObject>,
    items: Seq<LispObject>,
    answers: Seq<Answer>,
)
    requires
        m.holds(spine, items),
        crate::trace::kept(answers, spine, items),
        answers.len() <= items.len(),
    ensures
        m.prog_ignore(spine[0]).after(answers) == if answers.len() < items.len() {
            Step::Call(
                Request::Eval { form: items[answers.len() as int] },
                Frame::Progn {
                    rest: spine[answers.len() as int + 1],
                    after: After::Constant { value: LispObject::nil() },
                },
            )
        } else {
            Step::Done(LispObject::nil())
        },
{
    law_body(m, spine, items, After::Constant { value: LispObject::nil() }, answers);
}

/// `prog1` evaluates its forms in order and returns the value of the first one.
pub proof fn law_prog1(
    m: Memory,
    spine: Seq<LispObject>,
    items: Seq<LispObject>,
    answers: Seq<Answer>,
)
    requires
        m.holds(spine, items),
        items.len() >= 1,
        crate::trace::kept(answers, spine, items),
        answers.len() <= items.len(),
    ensures
        m.prog1(spine[0]).after(answers) == if answers.len() == items.len() {
            Step::Done(answers[0].reply)
        } else {
            Step::Call(
                Request::Eval { form: items[answers.len() as int] },
                if answers.len() == 0 {
                    Frame::Prog1 { body: spine[1] }
                } else {
                    Frame::Progn {
                        rest: spine[answers.len() as int + 1],
                        after: After::Constant { value: answers[0].reply },
                    }
                },
            )
        },
    decreases answers.len(),
{
    if answers.len() > 0 {
        crate::trace::lemma_kept_before(answers, spine, items);
        law_prog1(m, spine, items, answers.drop_last());
    }
}

/// `prog2` evaluates its forms in order and returns the value of the second one.
pub proof fn law_prog2(
    m: Memory,
    spine: Seq<LispObject>,
    items: Seq<LispObject>,
    answers: Seq<Answer>,
)
    requires
        m.holds(spine, items),
        items.len() >= 2,
        crate::trace::kept(answers, spine, items),
        answers.len() <= items.len(),
    ensures
        m.prog2(spine[0]).after(answers) == if answers.len() == items.len() {
            Step::Done(answers[1].reply)
        } else {
            Step::Call(
                Request::Eval { form: items[answers.len() as int] },
                if answers.len() == 0 {
                    Frame::Prog2 { rest: spine[1] }
                } else if answers.len() == 1 {
                    Frame::Prog1 { body: spine[2] }
                } else {
                    Frame::Progn {
                        rest: spine[answers.len() as int + 1],
                        after: After::Constant { value: answers[1].reply },
                    }
                },
            )
        },
    decreases answers.len(),
{
    if answers.len() > 0 {
        crate::trace::lemma_kept_before(answers, spine, items);
        law_prog2(m, spine, items, answers.drop_last());
    }
}

/// `if` evaluates its condition. If that yields non-nil, it evaluates the next form
/// and no other, and returns its value.
pub proof fn law_if_true(
    m: Memory,
    spine: Seq<LispObject>,
    items: Seq<LispObject>,
    answers: Seq<Answer>,
)
    requires
        m.holds(spine, items),
        items.len() >= 2,
        crate::trace::kept(answers, spine, items),
        answers.len() == 2,
        !answers[0].reply.is_nil(),
    ensures
        m.lisp_if(spine[0]) == Step::Call(
            Request::Eval { form: items[0] },
            Frame::If { cell: spine[0] },
        ),
        m.lisp_if(spine[0]).after(answers.take(1)) == Step::Call(
            Request::Eval { form: items[1] },
            Frame::Return,
        ),
        m.lisp_if(spine[0]).after(answers) == Step::Done(answers[1].reply),
{
    assert(answers.take(1) =~= seq![answers[0]]);
    assert(answers[0].memory.holds(spine, items));
    assert(answers[0].memory.cons(spine[1]) is Some);
    crate::trace::lemma_after_first(m.lisp_if(spine[0]), answers);
    assert(answers.drop_first() =~= seq![answers[1]]);
    crate::trace::lemma_after_first(m.lisp_if(spine[0]).after(answers.take(1)), seq![answers[1]]);
    assert(seq![answers[1]].drop_first() =~= Seq::<Answer>::empty());
}

/// If the condition yields nil, `if` evaluates the forms after the second one, in
/// order, and returns the value of the last one, nil if there is none.
pub proof fn law_if_false(
    m: Memory,
    spine: Seq<LispObject>,
    items: Seq<LispObject>,
    answers: Seq<Answer>,
)
    requires
        m.holds(spine, items),
        items.len() >= 2,
        crate::trace::kept(answers, spine, items),
        1 <= answers.len() < items.len(),
        answers[0].reply.is_nil(),
    ensures
        m.lisp_if(spine[0]).after(answers) == if answers.len() + 1 < items.len() {
            Step::Call(
                Request::Eval { form: items[answers.len() as int + 1] },
                Frame::Progn { rest: spine[answers.len() as int + 2], after: After::Value },
            )
        } else if answers.len() > 1 {
            Step::Done(answers.last().reply)
        } else {
            Step::Done(LispObject::nil())
        },
{
    let here = answers[0].memory;
    assert(here.holds(spine, items));
    assert(here.cons(spine[1]) is Some);
    crate::trace::lemma_after_first(m.lisp_if(spine[0]), answers);
    crate::trace::lemma_holds_skip(here, spine, items, 2);
    crate::trace::lemma_kept_part(answers, spine, items, 1, 2);
    assert(answers.drop_first() =~= answers.skip(1));
    law_body(here, spine.skip(2), items.skip(2), After::Value, answers.skip(1));
}

/// `cond` evaluates the conditions of its clauses in order until one yields
/// non-nil. The body of that clause is evaluated as `progn` does; without a body,
/// the value of the condition is returned. If no condition holds, `cond` returns nil.
pub proof fn law_cond(
    m: Memory,
    spine: Seq<LispObject>,
    items: Seq<LispObject>,
    clauses: Seq<Cons>,
    answers: Seq<Answer>,
)
    requires
        m.holds(spine, items),
        clauses.len() == items.len(),
        forall|i: int| 0 <= i < items.len() ==> m.cons(#[trigger] items[i]) == Some(clauses[i]),
        crate::trace::kept(answers, spine, items),
        forall|k: int, i: int|
            0 <= k < answers.len() && 0 <= i < items.len() ==> (
            #[trigger] answers[k]).memory.cons(#[trigger] items[i]) == Some(clauses[i]),
        answers.len() <= items.len(),
        forall|k: int| 0 <= k < answers.len() - 1 ==> (#[trigger] answers[k]).reply.is_nil(),
    ensures
        m.cond_step(spine[0]).after(answers) == if answers.len() > 0
            && !answers.last().reply.is_nil() {
            let body = clauses[answers.len() - 1].cdr;
            if body.is_nil() {
                Step::Done(answers.last().reply)
            } else {
                answers.last().memory.progn(body)
            }
        } else if answers.len() < items.len() {
            Step::Call(
                Request::Eval { form: clauses[answers.len() as int].car },
                Frame::Cond {
                    clause: items[answers.len() as int],
                    rest: spine[answers.len() as int + 1],
                },
            )
        } else {
            Step::Done(LispObject::nil())
        },
    decreases answers.len(),
{
    if answers.len() > 0 {
        let before = answers.drop_last();
        crate::trace::lemma_kept_before(answers, spine, items);
        assert forall|k: int, i: int| 0 <= k < before.len() && 0 <= i < items.len() implies (
        #[trigger] before[k]).memory.cons(#[trigger] items[i]) == Some(clauses[i]) by {
            assert(before[k] == answers[k]);
        }
        law_cond(m, spine, items, clauses, before);
        if before.len() > 0 {
            assert(before.last() == answers[before.len() - 1]);
        }
        let last = answers[answers.len() - 1];
        assert(last.memory.cons(items[before.len() as int]) == Some(clauses[before.len() as int]));
        if answers.len() < items.len() {
            assert(last.memory.cons(items[answers.len() as int]) == Some(
                clauses[answers.len() as int],
            ));
        }
    }
}

/// `cond` of clauses that are conditions alone runs as `or` of the conditions: it makes
/// the same requests and has the same value.
pub proof fn law_cond_or(
    m: Memory,
    clauses: (Seq<LispObject>, Seq<LispObject>),
    conditions: (Seq<LispObject>, Seq<LispObject>),
    answers: Seq<Answer>,
)
    requires
        m.holds(clauses.0, clauses.1),
        m.holds(conditions.0, conditions.1),
        m.bare(clauses.1, conditions.1),
        crate::trace::kept(answers, clauses.0, clauses.1),
        crate::trace::kept(answers, conditions.0, conditions.1),
        forall|k: int| 0 <= k < answers.len() ==> (#[trigger] answers[k]).memory.bare(
            clauses.1,
            conditions.1,
        ),
        answers.len() <= conditions.1.len(),
        forall|k: int| 0 <= k < answers.len() - 1 ==> (#[trigger] answers[k]).reply.is_nil(),
    ensures
        m.cond_step(clauses.0[0]).after(answers).alike(m.or_step(conditions.0[0]).after(answers)),
{
    let cells = Seq::new(
        conditions.1.len(),
        |i: int| Cons { car: conditions.1[i], cdr: LispObject::nil() },
    );
    assert forall|i: int| 0 <= i < clauses.1.len() implies m.cons(#[trigger] clauses.1[i]) == Some(
        cells[i],
    ) by {}
    assert forall|k: int, i: int| 0 <= k < answers.len() && 0 <= i < clauses.1.len() implies (
    #[trigger] answers[k]).memory.cons(#[trigger] clauses.1[i]) == Some(cells[i]) by {
        assert(answers[k].memory.bare(clauses.1, conditions.1));
    }
    law_cond(m, clauses.0, clauses.1, cells, answers);
    law_or(m, conditions.0, conditions.1, answers);
}

impl Memory {
    /// The `clauses` of a `cond` are the `conditions` alone, without a body.
    pub open spec fn bare(self, clauses: Seq<LispObject>, conditions: Seq<LispObject>) -> bool {
        &&& clauses.len() == conditions.len()
        &&& forall|i: int|
            0 <= i < clauses.len() ==> self.cons(#[trigger] clauses[i]) == Some(
                Cons { car: conditions[i], cdr: LispObject::nil() },
            )
    }
}

/// `while` evaluates TEST, the forms of BODY in order, TEST again, and so on, as
/// long as TEST yields non-nil.
pub proof fn law_while_round(
    test: LispObject,
    spine: Seq<LispObject>,
    items: Seq<LispObject>,
    answers: Seq<Answer>,
)
    requires
        crate::trace::kept(answers, spine, items),
        2 <= answers.len() <= items.len() + 2,
        !answers[0].reply.is_nil(),
    ensures
        ({
            let body = spine[0];
            let turn = Step::Call(Request::Eval { form: test }, Frame::WhileTest { test, body });
            turn.after(answers) == if answers.len() - 2 < items.len() {
                Step::Call(
                    Request::Eval { form: items[answers.len() - 2] },
                    Frame::Progn {
                        rest: spine[answers.len() - 1],
                        after: After::Again { test, body },
                    },
                )
            } else {
                turn
            }
        }),
{
    let body = spine[0];
    let turn = Step::Call(Request::Eval { form: test }, Frame::WhileTest { test, body });
    let rest = answers.drop_first();
    crate::trace::lemma_after_first(turn, answers);
    let polled = Step::Call(Request::MaybeQuit, Frame::WhilePolled { test, body });
    assert(turn.after(seq![answers[0]]) == polled);
    crate::trace::lemma_after_first(polled, rest);
    let here = answers[1].memory;
    assert(rest[0] == answers[1]);
    assert(here.holds(spine, items));
    crate::trace::lemma_kept_part(answers, spine, items, 2, 0);
    assert(rest.drop_first() =~= answers.skip(2));
    assert(spine.skip(0) =~= spine);
    assert(items.skip(0) =~= items);
    law_body(here, spine, items, After::Again { test, body }, answers.skip(2));
}

/// The step of a `while` form on its way, or at its end.
spec fn in_while(step: Step, test: LispObject, body: LispObject) -> bool {
    match step {
        Step::Done(value) => value.is_nil(),
        Step::Fail(_) => false,
        Step::Call(_, Frame::Progn { after, .. }) => after == (After::Again { test, body }),
        Step::Call(_, frame) => frame == (Frame::WhileTest { test, body }) || frame == (
        Frame::WhilePolled { test, body }),
    }
}

/// `while` returns nil, whatever happens on the way, and returns only when TEST
/// has yielded nil.
pub proof fn law_while_result(test: LispObject, body: LispObject, answers: Seq<Answer>)
    ensures
        ({
            let turn = Step::Call(Request::Eval { form: test }, Frame::WhileTest { test, body });
            match turn.after(answers) {
                Step::Call(_, _) => true,
                Step::Done(value) => value.is_nil(),
                Step::Fail(_) => false,
            }
        }),
        answers.len() > 0 ==> ({
            let turn = Step::Call(Request::Eval { form: test }, Frame::WhileTest { test, body });
            turn.after(answers) is Done && turn.after(answers.drop_last()) is Call ==> turn.after(
                answers.drop_last(),
            ) == turn && answers.last().reply.is_nil()
        }),
{
    let turn = Step::Call(Request::Eval { form: test }, Frame::WhileTest { test, body });
    lemma_in_while(test, body, answers);
    if answers.len() > 0 {
        lemma_in_while(test, body, answers.drop_last());
    }
}

proof fn lemma_in_while(test: LispObject, body: LispObject, answers: Seq<Answer>)
    ensures
        ({
            let turn = Step::Call(Request::Eval { form: test }, Frame::WhileTest { test, body });
            &&& in_while(turn.after(answers), test, body)
            &&& turn.after(answers) matches Step::Call(_, Frame::WhileTest { .. })
                ==> turn.after(answers) == turn
        }),
    decreases answers.len(),
{
    if answers.len() > 0 {
        lemma_in_while(test, body, answers.drop_last());
    }
}

} // verus!

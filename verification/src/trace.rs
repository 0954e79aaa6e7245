//! Runs: what becomes of a primitive as its requests are answered one by one.
use vstd::prelude::*;
use crate::heap::{Cons, Memory};
use crate::machine::{Frame, Step};
use crate::object::LispObject;

verus! {

/// The answer to a request, and the memory as it is when the answer comes. The
/// memory need not be the one that the request left: carrying the request out may
/// change anything.
pub struct Answer {
    pub memory: Memory,
    pub reply: LispObject,
}

impl Step {
    /// The step that a primitive comes to once its requests got the `answers`.
    pub open spec fn after(self, answers: Seq<Answer>) -> Step
        decreases answers.len(),
    {
        if answers.len() == 0 {
            self
        } else {
            match self.after(answers.drop_last()) {
                Step::Call(_, frame) => answers.last().memory.resumed(
                    frame,
                    answers.last().reply,
                ).1,
                step => step,
            }
        }
    }

    /// The memory that a primitive begun in `m` has left once its requests got the
    /// `answers`.
    pub open spec fn left(self, m: Memory, answers: Seq<Answer>) -> Memory {
        if answers.len() == 0 {
            m
        } else {
            match self.after(answers.drop_last()) {
                Step::Call(_, frame) => answers.last().memory.resumed(
                    frame,
                    answers.last().reply,
                ).0,
                _ => answers.last().memory,
            }
        }
    }

    /// The two steps ask for the same thing, or end in the same way.
    pub open spec fn alike(self, other: Step) -> bool {
        match (self, other) {
            (Step::Call(request, _), Step::Call(same, _)) => request == same,
            (Step::Done(value), Step::Done(same)) => value == same,
            (Step::Fail(error), Step::Fail(same)) => error == same,
            _ => false,
        }
    }
}

impl Memory {
    /// The chain of cells `spine` holds the `items`, and ends with the last of `spine`.
    pub open spec fn holds(self, spine: Seq<LispObject>, items: Seq<LispObject>) -> bool {
        &&& spine.len() == items.len() + 1
        &&& forall|i: int|
            0 <= i < items.len() ==> (#[trigger] self.cons(spine[i])) == Some(
                Cons { car: items[i], cdr: spine[i + 1] },
            )
        &&& self.cons(spine[items.len() as int]) is None
    }
}

/// The chain of cells `spine` holds the `items` whenever an answer comes.
pub open spec fn kept(
    answers: Seq<Answer>,
    spine: Seq<LispObject>,
    items: Seq<LispObject>,
) -> bool {
    forall|k: int| 0 <= k < answers.len() ==> (#[trigger] answers[k]).memory.holds(spine, items)
}

/// A run can be taken in two parts.
pub proof fn lemma_after_split(step: Step, first: Seq<Answer>, second: Seq<Answer>)
    ensures
        step.after(first + second) == step.after(first).after(second),
    decreases second.len(),
{
    if second.len() == 0 {
        assert(first + second =~= first);
    } else {
        assert((first + second).drop_last() =~= first + second.drop_last());
        assert((first + second).last() == second.last());
        lemma_after_split(step, first, second.drop_last());
    }
}

/// A run of at least one answer goes on from the step after the first.
pub proof fn lemma_after_first(step: Step, answers: Seq<Answer>)
    requires
        answers.len() > 0,
    ensures
        step.after(answers) == step.after(seq![answers[0]]).after(answers.drop_first()),
        step matches Step::Call(_, frame) ==> step.after(seq![answers[0]])
            == answers[0].memory.resumed(frame, answers[0].reply).1,
        !(step is Call) ==> step.after(seq![answers[0]]) == step,
{
    assert(answers =~= seq![answers[0]] + answers.drop_first());
    lemma_after_split(step, seq![answers[0]], answers.drop_first());
    reveal_with_fuel(Step::after, 2);
    assert(seq![answers[0]].drop_last() =~= Seq::<Answer>::empty());
}

/// What a run of at least one answer leaves is what it leaves from the first one on.
pub proof fn lemma_left_first(step: Step, m: Memory, frame: Frame, answers: Seq<Answer>)
    requires
        answers.len() > 0,
        step matches Step::Call(_, f) && f == frame,
    ensures
        ({
            let (n, next) = answers[0].memory.resumed(frame, answers[0].reply);
            &&& step.after(answers) == next.after(answers.drop_first())
            &&& step.left(m, answers) == next.left(n, answers.drop_first())
        }),
{
    lemma_after_first(step, answers);
    let rest = answers.drop_first();
    if rest.len() > 0 {
        lemma_after_first(step, answers.drop_last());
        assert(answers.drop_last().drop_first() =~= rest.drop_last());
        assert(answers.last() == rest.last());
    } else {
        assert(answers.drop_last() =~= Seq::<Answer>::empty());
        assert(answers.last() == answers[0]);
    }
}

/// A run with one more answer.
pub proof fn lemma_one_more(start: Step, answers: Seq<Answer>, k: int)
    requires
        0 <= k < answers.len(),
    ensures
        start.after(answers.take(k + 1)) == match start.after(answers.take(k)) {
            Step::Call(_, frame) => answers[k].memory.resumed(frame, answers[k].reply).1,
            step => step,
        },
{
    assert(answers.take(k + 1).drop_last() =~= answers.take(k));
    assert(answers.take(k + 1).last() == answers[k]);
}

/// A list that is kept up to an answer is kept up to the answer before, and at the
/// answer itself the next cell is as it was.
pub proof fn lemma_kept_before(answers: Seq<Answer>, spine: Seq<LispObject>, items: Seq<LispObject>)
    requires
        kept(answers, spine, items),
        0 < answers.len() <= items.len(),
    ensures
        kept(answers.drop_last(), spine, items),
        answers.last().memory.cons(spine[answers.len() as int]) == if answers.len() < items.len() {
            Some(Cons { car: items[answers.len() as int], cdr: spine[answers.len() as int + 1] })
        } else {
            None
        },
{
    let before = answers.drop_last();
    assert forall|k: int| 0 <= k < before.len() implies (#[trigger] before[k]).memory.holds(
        spine,
        items,
    ) by {
        assert(before[k] == answers[k]);
    }
    assert(answers[answers.len() - 1].memory.holds(spine, items));
}

/// The end of a list, without its first `k` elements, is a list.
pub proof fn lemma_holds_skip(m: Memory, spine: Seq<LispObject>, items: Seq<LispObject>, k: int)
    requires
        m.holds(spine, items),
        0 <= k <= items.len(),
    ensures
        m.holds(spine.skip(k), items.skip(k)),
{
    assert forall|i: int| 0 <= i < items.skip(k).len() implies m.cons(#[trigger] spine.skip(k)[i])
        == Some(Cons { car: items.skip(k)[i], cdr: spine.skip(k)[i + 1] }) by {
        assert(spine.skip(k)[i] == spine[i + k]);
    }
}

/// What is kept during a run is kept during a part of it, and so is the end of it.
pub proof fn lemma_kept_part(
    answers: Seq<Answer>,
    spine: Seq<LispObject>,
    items: Seq<LispObject>,
    from: int,
    k: int,
)
    requires
        kept(answers, spine, items),
        0 <= from <= answers.len(),
        0 <= k <= items.len(),
    ensures
        kept(answers.skip(from), spine.skip(k), items.skip(k)),
{
    assert forall|j: int| 0 <= j < answers.skip(from).len() implies (#[trigger] answers.skip(
        from,
    )[j]).memory.holds(spine.skip(k), items.skip(k)) by {
        assert(answers.skip(from)[j] == answers[j + from]);
        lemma_holds_skip(answers[j + from].memory, spine, items, k);
    }
}

/// The chain that holds some items ends after as many cells.
pub proof fn lemma_holds_end(m: Memory, spine: Seq<LispObject>, items: Seq<LispObject>, k: int)
    requires
        m.holds(spine, items),
        0 <= k <= items.len(),
    ensures
        m.list_end(spine[k]) == Some(((items.len() - k) as nat, spine.last())),
{
    lemma_holds_tail(m, spine, items, k, (items.len() - k) as nat);
    crate::lists::lemma_list_end(m, spine[k], (items.len() - k) as nat);
}

/// The tails of a chain are those of its spine.
pub proof fn lemma_holds_tail(
    m: Memory,
    spine: Seq<LispObject>,
    items: Seq<LispObject>,
    k: int,
    n: nat,
)
    requires
        m.holds(spine, items),
        0 <= k,
        k + n <= items.len(),
    ensures
        m.tail(spine[k], n) == Some(spine[k + n]),
    decreases n,
{
    if n > 0 {
        lemma_holds_tail(m, spine, items, k, (n - 1) as nat);
        assert(m.cons(spine[k + n - 1]) is Some);
    }
}

} // verus!

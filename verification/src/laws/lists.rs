//! Lists, told by their cells.
use vstd::prelude::*;
use crate::errors::LispError;
use crate::heap::{Cons, Memory};
use crate::object::{LispObject, QLISTP};

verus! {

/// A chain of cells that ends: its length, whether it is a list, and the error that a
/// walk over all of it ends with, are told by its spine and by what it ends with.
pub proof fn law_chain(m: Memory, spine: Seq<LispObject>, items: Seq<LispObject>)
    requires
        m.holds(spine, items),
    ensures
        m.list_end(spine[0]) == Some((items.len(), spine.last())),
        m.genuine_list(spine[0]) == spine.last().is_nil(),
        spine.last().is_nil() ==> m.length(spine[0]) == Ok::<nat, LispError>(items.len())
            && m.list_defect(spine[0]) is None,
        !spine.last().is_nil() ==> m.length(spine[0]) == Err::<nat, LispError>(
            LispError::WrongType { predicate: QLISTP, value: spine[0] },
        ) && m.list_defect(spine[0]) == Some(
            LispError::WrongType { predicate: QLISTP, value: spine[0] },
        ),
{
    crate::trace::lemma_holds_end(m, spine, items, 0);
    crate::trace::lemma_holds_tail(m, spine, items, 0, items.len());
    if m.genuine_list(spine[0]) {
        let n = choose|n: nat| m.tail(spine[0], n) == Some(LispObject::nil());
        crate::lists::lemma_list_end(m, spine[0], n);
    }
}

impl Memory {
    /// The cells `spine` hold the `items`, each leads to the next one, and the last one
    /// leads back to the cell number `back`.
    pub open spec fn circles(
        self,
        spine: Seq<LispObject>,
        items: Seq<LispObject>,
        back: int,
    ) -> bool {
        &&& spine.len() == items.len()
        &&& 0 <= back < spine.len()
        &&& forall|i: int|
            0 <= i < spine.len() ==> (#[trigger] self.cons(spine[i])) == Some(
                Cons {
                    car: items[i],
                    cdr: if i + 1 < spine.len() {
                        spine[i + 1]
                    } else {
                        spine[back]
                    },
                },
            )
    }
}

/// A chain of cells that goes round in a circle has no end, and a walk over all of it ends
/// with that error.
pub proof fn law_circle(m: Memory, spine: Seq<LispObject>, items: Seq<LispObject>, back: int)
    requires
        m.circles(spine, items, back),
    ensures
        m.list_end(spine[0]) is None,
        !m.genuine_list(spine[0]),
        m.list_defect(spine[0]) == Some(LispError::CircularList { list: spine[0] }),
        m.length(spine[0]) == Err::<nat, LispError>(LispError::CircularList { list: spine[0] }),
{
    if m.list_end(spine[0]) is Some {
        crate::lists::lemma_end_reached(m, spine[0]);
        let n = (m.list_end(spine[0])->0).0;
        let i = lemma_round(m, spine, items, back, n);
        assert(m.cons(spine[i]) is Some);
    }
    if m.genuine_list(spine[0]) {
        let n = choose|n: nat| m.tail(spine[0], n) == Some(LispObject::nil());
        let i = lemma_round(m, spine, items, back, n);
        assert(m.cons(spine[i]) is Some);
    }
}

/// Every tail of a circle is one of its cells.
proof fn lemma_round(
    m: Memory,
    spine: Seq<LispObject>,
    items: Seq<LispObject>,
    back: int,
    n: nat,
) -> (i: int)
    requires
        m.circles(spine, items, back),
    ensures
        0 <= i < spine.len(),
        n < spine.len() ==> i == n,
        m.tail(spine[0], n) == Some(spine[i]),
    decreases n,
{
    if n == 0 {
        0
    } else {
        let i = lemma_round(m, spine, items, back, (n - 1) as nat);
        assert(m.cons(spine[i]) is Some);
        if i + 1 < spine.len() {
            i + 1
        } else {
            back
        }
    }
}

/// `items[i]` is the first of the `items` that is a cell with the car `key`.
pub open spec fn first_pair(m: Memory, key: LispObject, items: Seq<LispObject>, i: int) -> bool {
    &&& 0 <= i < items.len()
    &&& m.is_pair_of(key, items[i])
    &&& forall|k: int| 0 <= k < i ==> !m.is_pair_of(key, #[trigger] items[k])
}

impl Memory {
    /// `obj` is a cell whose car is `key`.
    pub open spec fn is_pair_of(self, key: LispObject, obj: LispObject) -> bool {
        self.cons(obj) matches Some(pair) && pair.car == key
    }
}

/// `assq` finds the first element that is a cell with the car KEY. If there is none, it is
/// nil for a list, and an error for what does not end like a list.
pub proof fn law_assq(
    m: Memory,
    key: LispObject,
    spine: Seq<LispObject>,
    items: Seq<LispObject>,
    i: int,
)
    requires
        m.holds(spine, items),
    ensures
        first_pair(m, key, items, i) ==> m.assq(key, spine[0]) == Ok::<LispObject, LispError>(
            items[i],
        ),
        (forall|k: int| 0 <= k < items.len() ==> !m.is_pair_of(key, #[trigger] items[k]))
            ==> m.assq(key, spine[0]) == if spine.last().is_nil() {
            Ok(LispObject::nil())
        } else {
            Err(LispError::WrongType { predicate: QLISTP, value: spine[0] })
        },
{
    law_chain(m, spine, items);
    assert forall|n: nat| m.assq_at(key, spine[0], n) == (n < items.len() && m.is_pair_of(
        key,
        items[n as int],
    )) by {
        lemma_nth(m, spine, items, n);
    }
    if first_pair(m, key, items, i) {
        assert forall|k: nat| k < i implies !m.assq_at(key, spine[0], k) by {
            assert(!m.is_pair_of(key, items[k as int]));
        }
        lemma_nth(m, spine, items, i as nat);
        crate::lists::lemma_assq_found(m, key, spine[0], i as nat);
    }
    if forall|k: int| 0 <= k < items.len() ==> !m.is_pair_of(key, #[trigger] items[k]) {
        assert forall|n: nat| !m.assq_at(key, spine[0], n) by {
            if n < items.len() {
                assert(!m.is_pair_of(key, items[n as int]));
            }
        }
        crate::lists::lemma_assq_missing(m, key, spine[0]);
    }
}

/// The cell number `n` of a chain.
proof fn lemma_nth(m: Memory, spine: Seq<LispObject>, items: Seq<LispObject>, n: nat)
    requires
        m.holds(spine, items),
    ensures
        m.nth_cell(spine[0], n) == if n < items.len() {
            Some(Cons { car: items[n as int], cdr: spine[n as int + 1] })
        } else {
            None
        },
        n <= items.len() ==> m.tail(spine[0], n) == Some(spine[n as int]),
{
    crate::trace::lemma_holds_tail(m, spine, items, 0, items.len());
    if n <= items.len() {
        crate::trace::lemma_holds_tail(m, spine, items, 0, n);
        if n < items.len() {
            assert(m.cons(spine[n as int]) is Some);
        }
    } else if m.tail(spine[0], n) is Some {
        crate::lists::lemma_tail_shorter(m, spine[0], items.len(), n);
    }
}

/// `assq` in a circle finds the first such element too, and complains of the circle if
/// there is none.
pub proof fn law_assq_circle(
    m: Memory,
    key: LispObject,
    spine: Seq<LispObject>,
    items: Seq<LispObject>,
    back: int,
    i: int,
)
    requires
        m.circles(spine, items, back),
    ensures
        first_pair(m, key, items, i) ==> m.assq(key, spine[0]) == Ok::<LispObject, LispError>(
            items[i],
        ),
        (forall|k: int| 0 <= k < items.len() ==> !m.is_pair_of(key, #[trigger] items[k]))
            ==> m.assq(key, spine[0]) == Err::<LispObject, LispError>(
            LispError::CircularList { list: spine[0] },
        ),
{
    law_circle(m, spine, items, back);
    if first_pair(m, key, items, i) {
        assert forall|k: nat| k <= i implies m.assq_at(key, spine[0], k) == (k == i) by {
            let j = lemma_round(m, spine, items, back, k);
            assert(m.cons(spine[j]) is Some);
            if k < i {
                assert(!m.is_pair_of(key, items[k as int]));
            }
        }
        let j = lemma_round(m, spine, items, back, i as nat);
        assert(m.cons(spine[i]) is Some);
        crate::lists::lemma_assq_found(m, key, spine[0], i as nat);
    }
    if forall|k: int| 0 <= k < items.len() ==> !m.is_pair_of(key, #[trigger] items[k]) {
        assert forall|n: nat| !m.assq_at(key, spine[0], n) by {
            let j = lemma_round(m, spine, items, back, n);
            assert(m.cons(spine[j]) is Some);
            assert(!m.is_pair_of(key, items[j]));
        }
        crate::lists::lemma_assq_missing(m, key, spine[0]);
    }
}

/// `memq` finds the tail that begins with the first element that is ELT. If there is none,
/// it is nil for a list, and an error for what does not end like a list.
pub proof fn law_memq(
    m: Memory,
    elt: LispObject,
    spine: Seq<LispObject>,
    items: Seq<LispObject>,
    i: int,
)
    requires
        m.holds(spine, items),
    ensures
        0 <= i < items.len() && items[i] == elt && !items.take(i).contains(elt) ==> m.memq(
            elt,
            spine[0],
        ) == Ok::<LispObject, LispError>(spine[i]),
        !items.contains(elt) ==> m.memq(elt, spine[0]) == if spine.last().is_nil() {
            Ok(LispObject::nil())
        } else {
            Err(LispError::WrongType { predicate: QLISTP, value: spine[0] })
        },
{
    law_chain(m, spine, items);
    assert forall|n: nat| m.memq_at(elt, spine[0], n) == (n < items.len() && items[n as int]
        == elt) by {
        lemma_nth(m, spine, items, n);
    }
    if 0 <= i < items.len() && items[i] == elt && !items.take(i).contains(elt) {
        assert forall|k: nat| k < i implies !m.memq_at(elt, spine[0], k) by {
            assert(items.take(i)[k as int] == items[k as int]);
        }
        lemma_nth(m, spine, items, i as nat);
        crate::lists::lemma_memq_found(m, elt, spine[0], i as nat);
    }
    if !items.contains(elt) {
        assert forall|n: nat| !m.memq_at(elt, spine[0], n) by {
            lemma_nth(m, spine, items, n);
            if n < items.len() {
                assert(items.contains(items[n as int]));
            }
        }
        crate::lists::lemma_memq_missing(m, elt, spine[0]);
    }
}

/// `memq` in a circle finds the first such tail too, and complains of the circle if there
/// is none.
pub proof fn law_memq_circle(
    m: Memory,
    elt: LispObject,
    spine: Seq<LispObject>,
    items: Seq<LispObject>,
    back: int,
    i: int,
)
    requires
        m.circles(spine, items, back),
    ensures
        0 <= i < items.len() && items[i] == elt && !items.take(i).contains(elt) ==> m.memq(
            elt,
            spine[0],
        ) == Ok::<LispObject, LispError>(spine[i]),
        !items.contains(elt) ==> m.memq(elt, spine[0]) == Err::<LispObject, LispError>(
            LispError::CircularList { list: spine[0] },
        ),
{
    law_circle(m, spine, items, back);
    if 0 <= i < items.len() && items[i] == elt && !items.take(i).contains(elt) {
        assert forall|k: nat| k <= i implies m.memq_at(elt, spine[0], k) == (k == i) by {
            let j = lemma_round(m, spine, items, back, k);
            assert(m.cons(spine[j]) is Some);
            if k < i {
                assert(items.take(i)[k as int] == items[k as int]);
            }
        }
        let j = lemma_round(m, spine, items, back, i as nat);
        crate::lists::lemma_memq_found(m, elt, spine[0], i as nat);
    }
    if !items.contains(elt) {
        assert forall|n: nat| !m.memq_at(elt, spine[0], n) by {
            let j = lemma_round(m, spine, items, back, n);
            assert(m.cons(spine[j]) is Some);
            assert(items.contains(items[j]));
        }
        crate::lists::lemma_memq_missing(m, elt, spine[0]);
    }
}

/// The car and the cdr of a cell are its halves, those of nil are nil, and nothing else
/// has them.
pub proof fn law_halves(m: Memory, obj: LispObject)
    ensures
        m.cons(obj) matches Some(cell) ==> m.car(obj) == Ok::<LispObject, LispError>(cell.car)
            && m.cdr(obj) == Ok::<LispObject, LispError>(cell.cdr),
        m.car(LispObject::nil()) == Ok::<LispObject, LispError>(LispObject::nil()),
        m.cdr(LispObject::nil()) == Ok::<LispObject, LispError>(LispObject::nil()),
        m.cons(obj) is None && !obj.is_nil() ==> ({
            let wrong = LispError::WrongType { predicate: QLISTP, value: obj };
            m.car(obj) == Err::<LispObject, LispError>(wrong) && m.cdr(obj) == Err::<
                LispObject,
                LispError,
            >(wrong)
        }),
{
}

/// A walk over a list comes to one cell after the other; it ends at nil, and complains of
/// the whole list at any other end. A walk that would go round in a circle is refused.
pub proof fn law_walk(
    m: Memory,
    list: LispObject,
    spine: Seq<LispObject>,
    items: Seq<LispObject>,
    back: int,
)
    ensures
        m.holds(spine, items) ==> m.next_cell(list, spine[0]) == if items.len() > 0 {
            Ok(Some(Cons { car: items[0], cdr: spine[1] }))
        } else if spine[0].is_nil() {
            Ok(None)
        } else {
            Err(LispError::WrongType { predicate: QLISTP, value: list })
        },
        m.circles(spine, items, back) ==> m.next_cell(list, spine[0]) == Err::<
            Option<Cons>,
            LispError,
        >(LispError::CircularList { list }),
{
    if m.holds(spine, items) {
        law_chain(m, spine, items);
        assert(m.cons(spine[0]) is Some || items.len() == 0);
    }
    if m.circles(spine, items, back) {
        law_circle(m, spine, items, back);
        assert(m.cons(spine[0]) is Some);
    }
}

} // verus!

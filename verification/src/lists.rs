//! Lists: their tails and ends, and the searches that the primitives make.
use vstd::prelude::*;
use vstd::set_lib::*;
use crate::errors::LispError;
use crate::heap::{Cons, Heap, Memory};
use crate::object::{LispObject, QLISTP, QNIL};

verus! {

impl Memory {
    /// What is left of `obj` after `n` cdrs; none if a cell is missing before that.
    pub open spec fn tail(self, obj: LispObject, n: nat) -> Option<LispObject>
        decreases n,
    {
        if n == 0 {
            Some(obj)
        } else {
            match self.tail(obj, (n - 1) as nat) {
                Some(t) => match self.cons(t) {
                    Some(cell) => Some(cell.cdr),
                    None => None,
                },
                None => None,
            }
        }
    }

    /// The cell after `n` cdrs.
    pub open spec fn nth_cell(self, obj: LispObject, n: nat) -> Option<Cons> {
        match self.tail(obj, n) {
            Some(t) => self.cons(t),
            None => None,
        }
    }

    /// `obj` is a chain of exactly `n` cells.
    pub open spec fn ends_after(self, obj: LispObject, n: nat) -> bool {
        self.tail(obj, n) is Some && self.nth_cell(obj, n) is None
    }

    /// The number of cells in the chain `obj`, and what the last of them ends
    /// with; none if the chain goes round in a circle. See `lemma_list_end` and
    /// `lemma_end_reached`.
    #[verifier::opaque]
    pub open spec fn list_end(self, obj: LispObject) -> Option<(nat, LispObject)> {
        if exists|n: nat| self.ends_after(obj, n) {
            let n = choose|n: nat| self.ends_after(obj, n);
            Some((n, self.tail(obj, n)->0))
        } else {
            None
        }
    }

    /// `obj` is a list: a chain of cells that ends with nil.
    pub open spec fn genuine_list(self, obj: LispObject) -> bool {
        exists|n: nat| self.tail(obj, n) == Some(LispObject::nil())
    }

    /// The error with which a walk over all of `list` ends, if it ends with one.
    pub open spec fn list_defect(self, list: LispObject) -> Option<LispError> {
        match self.list_end(list) {
            Some((_, end)) => if end.is_nil() {
                None
            } else {
                Some(LispError::WrongType { predicate: QLISTP, value: list })
            },
            None => Some(LispError::CircularList { list }),
        }
    }

    /// The number of elements of a list.
    pub open spec fn length(self, list: LispObject) -> Result<nat, LispError> {
        match self.list_defect(list) {
            Some(error) => Err(error),
            None => Ok((self.list_end(list)->0).0),
        }
    }

    /// The element number `n` of the alist `list` is a cell whose car is `key`.
    pub open spec fn assq_at(self, key: LispObject, list: LispObject, n: nat) -> bool {
        self.nth_cell(list, n) matches Some(cell) && self.cons(cell.car) matches Some(pair)
            && pair.car == key
    }

    /// The first element of `list` that is a cell with the car `key`, or nil. See
    /// `lemma_assq_found` and `lemma_assq_missing`.
    #[verifier::opaque]
    pub open spec fn assq(self, key: LispObject, list: LispObject) -> Result<
        LispObject,
        LispError,
    > {
        if exists|n: nat| self.assq_at(key, list, n) {
            let n = choose|n: nat|
                self.assq_at(key, list, n) && forall|k: nat| k < n ==> !self.assq_at(key, list, k);
            Ok(self.nth_cell(list, n)->0.car)
        } else {
            match self.list_defect(list) {
                Some(error) => Err(error),
                None => Ok(LispObject::nil()),
            }
        }
    }

    /// The element number `n` of `list` is `elt`.
    pub open spec fn memq_at(self, elt: LispObject, list: LispObject, n: nat) -> bool {
        self.nth_cell(list, n) matches Some(cell) && cell.car == elt
    }

    /// The first tail of `list` whose car is `elt`, or nil. See `lemma_memq_found` and
    /// `lemma_memq_missing`.
    #[verifier::opaque]
    pub open spec fn memq(self, elt: LispObject, list: LispObject) -> Result<
        LispObject,
        LispError,
    > {
        if exists|n: nat| self.memq_at(elt, list, n) {
            let n = choose|n: nat|
                self.memq_at(elt, list, n) && forall|k: nat| k < n ==> !self.memq_at(elt, list, k);
            Ok(self.tail(list, n)->0)
        } else {
            match self.list_defect(list) {
                Some(error) => Err(error),
                None => Ok(LispObject::nil()),
            }
        }
    }

    /// The car of a list: nil for nil, and an error for what is no list.
    pub open spec fn car(self, obj: LispObject) -> Result<LispObject, LispError> {
        match self.cons(obj) {
            Some(cell) => Ok(cell.car),
            None => if obj.is_nil() {
                Ok(LispObject::nil())
            } else {
                Err(LispError::WrongType { predicate: QLISTP, value: obj })
            },
        }
    }

    /// The cdr of a list: nil for nil, and an error for what is no list.
    pub open spec fn cdr(self, obj: LispObject) -> Result<LispObject, LispError> {
        match self.cons(obj) {
            Some(cell) => Ok(cell.cdr),
            None => if obj.is_nil() {
                Ok(LispObject::nil())
            } else {
                Err(LispError::WrongType { predicate: QLISTP, value: obj })
            },
        }
    }

    /// The next cell of a walk over `list` that has come to `rest`. A walk that
    /// cannot come to an end is refused, and so is an end other than nil.
    pub open spec fn next_cell(self, list: LispObject, rest: LispObject) -> Result<
        Option<Cons>,
        LispError,
    > {
        match self.cons(rest) {
            Some(cell) => if self.list_end(rest) is None {
                Err(LispError::CircularList { list })
            } else {
                Ok(Some(cell))
            },
            None => if rest.is_nil() {
                Ok(None)
            } else {
                Err(LispError::WrongType { predicate: QLISTP, value: list })
            },
        }
    }
}

/// What `assq` finds, it finds at the first place there is.
pub proof fn lemma_assq_cell(m: Memory, key: LispObject, list: LispObject) -> (n: nat)
    requires
        m.assq(key, list) matches Ok(found) && m.cons(found) is Some,
    ensures
        m.assq_at(key, list, n),
        forall|k: nat| k < n ==> !m.assq_at(key, list, k),
        m.assq(key, list) == Ok::<LispObject, LispError>(m.nth_cell(list, n)->0.car),
{
    reveal(Memory::assq);
    let any = choose|any: nat| m.assq_at(key, list, any);
    let n = lemma_first_assq(m, key, list, any);
    lemma_assq_found(m, key, list, n);
    n
}

/// Where there is a cell for `key`, there is a first one.
pub proof fn lemma_first_assq(m: Memory, key: LispObject, list: LispObject, any: nat) -> (n: nat)
    requires
        m.assq_at(key, list, any),
    ensures
        m.assq_at(key, list, n),
        forall|k: nat| k < n ==> !m.assq_at(key, list, k),
    decreases any,
{
    if exists|k: nat| k < any && m.assq_at(key, list, k) {
        let k = choose|k: nat| k < any && m.assq_at(key, list, k);
        lemma_first_assq(m, key, list, k)
    } else {
        any
    }
}

/// A walk that has found no cell for `key` before the element `n`, and one there,
/// has found what `assq` returns.
pub proof fn lemma_assq_found(m: Memory, key: LispObject, list: LispObject, n: nat)
    requires
        m.assq_at(key, list, n),
        forall|k: nat| k < n ==> !m.assq_at(key, list, k),
    ensures
        m.assq(key, list) == Ok::<LispObject, LispError>(m.nth_cell(list, n)->0.car),
{
    reveal(Memory::assq);
    let c = choose|c: nat|
        m.assq_at(key, list, c) && forall|k: nat| k < c ==> !m.assq_at(key, list, k);
    assert(c == n);
}

/// Where `elt` is an element, there is a first place where it is.
pub proof fn lemma_first_memq(m: Memory, elt: LispObject, list: LispObject, any: nat) -> (n: nat)
    requires
        m.memq_at(elt, list, any),
    ensures
        m.memq_at(elt, list, n),
        forall|k: nat| k < n ==> !m.memq_at(elt, list, k),
    decreases any,
{
    if exists|k: nat| k < any && m.memq_at(elt, list, k) {
        let k = choose|k: nat| k < any && m.memq_at(elt, list, k);
        lemma_first_memq(m, elt, list, k)
    } else {
        any
    }
}

/// A walk that has not found `elt` before the element `n`, and found it there, has
/// found what `memq` returns.
pub proof fn lemma_memq_found(m: Memory, elt: LispObject, list: LispObject, n: nat)
    requires
        m.memq_at(elt, list, n),
        forall|k: nat| k < n ==> !m.memq_at(elt, list, k),
    ensures
        m.memq(elt, list) == Ok::<LispObject, LispError>(m.tail(list, n)->0),
{
    reveal(Memory::memq);
    let c = choose|c: nat|
        m.memq_at(elt, list, c) && forall|k: nat| k < c ==> !m.memq_at(elt, list, k);
    assert(c == n);
}

/// A walk over all of `list` that has found no cell for `key` ends as `assq` says.
pub proof fn lemma_assq_missing(m: Memory, key: LispObject, list: LispObject)
    requires
        forall|n: nat| !m.assq_at(key, list, n),
    ensures
        m.assq(key, list) == match m.list_defect(list) {
            Some(error) => Err(error),
            None => Ok(LispObject::nil()),
        },
{
    reveal(Memory::assq);
}

/// A walk over all of `list` that has not found `elt` ends as `memq` says.
pub proof fn lemma_memq_missing(m: Memory, elt: LispObject, list: LispObject)
    requires
        forall|n: nat| !m.memq_at(elt, list, n),
    ensures
        m.memq(elt, list) == match m.list_defect(list) {
            Some(error) => Err(error),
            None => Ok(LispObject::nil()),
        },
{
    reveal(Memory::memq);
}

/// What `list_end` describes is the end of the chain.
pub proof fn lemma_end_reached(m: Memory, obj: LispObject)
    requires
        m.list_end(obj) is Some,
    ensures
        m.list_end(obj) matches Some((n, end)) && m.ends_after(obj, n) && m.tail(obj, n) == Some(
            end,
        ),
{
    reveal(Memory::list_end);
}

/// A chain that has a tail after `n` cdrs has one after fewer.
pub proof fn lemma_tail_shorter(m: Memory, obj: LispObject, k: nat, n: nat)
    requires
        k <= n,
        m.tail(obj, n) is Some,
    ensures
        m.tail(obj, k) is Some,
        k < n ==> m.nth_cell(obj, k) is Some,
    decreases n,
{
    if k < n {
        lemma_tail_shorter(m, obj, k, (n - 1) as nat);
    }
}

/// Going on for `n` cdrs from the tail number `k` leads to the tail number `k + n`.
pub proof fn lemma_tail_of_tail(m: Memory, obj: LispObject, k: nat, n: nat)
    requires
        m.tail(obj, k) is Some,
    ensures
        m.tail(obj, k + n) == m.tail(m.tail(obj, k)->0, n),
    decreases n,
{
    if n > 0 {
        lemma_tail_of_tail(m, obj, k, (n - 1) as nat);
        assert(k + n - 1 == k + (n - 1) as nat);
    }
}

/// A chain ends after one number of cells only.
pub proof fn lemma_end_unique(m: Memory, obj: LispObject, a: nat, b: nat)
    requires
        m.ends_after(obj, a),
        m.ends_after(obj, b),
    ensures
        a == b,
{
    if a < b {
        lemma_tail_shorter(m, obj, a, b);
    } else if b < a {
        lemma_tail_shorter(m, obj, b, a);
    }
}

/// A chain that ends after `n` cells is the chain that `list_end` describes.
pub proof fn lemma_list_end(m: Memory, obj: LispObject, n: nat)
    requires
        m.ends_after(obj, n),
    ensures
        m.list_end(obj) == Some((n, m.tail(obj, n)->0)),
{
    reveal(Memory::list_end);
    let c = choose|c: nat| m.ends_after(obj, c);
    lemma_end_unique(m, obj, n, c);
}

/// A chain without its first cell ends where the chain ends.
pub proof fn lemma_rest_end(m: Memory, list: LispObject, elt: LispObject, rest: LispObject)
    requires
        m.cons(list) == Some(Cons { car: elt, cdr: rest }),
    ensures
        forall|k: nat| #[trigger] m.tail(rest, k) == m.tail(list, k + 1),
        m.list_end(list) == match m.list_end(rest) {
            Some((n, end)) => Some((n + 1, end)),
            None => None,
        },
{
    reveal_with_fuel(Memory::tail, 2);
    assert forall|k: nat| #[trigger] m.tail(rest, k) == m.tail(list, k + 1) by {
        lemma_tail_of_tail(m, list, 1, k);
        assert(1 + k == k + 1);
    }
    if let Some((n, end)) = m.list_end(rest) {
        lemma_end_reached(m, rest);
        assert(m.ends_after(list, n + 1));
        lemma_list_end(m, list, n + 1);
    } else if let Some((n, end)) = m.list_end(list) {
        lemma_end_reached(m, list);
        assert(n > 0);
        assert(m.tail(rest, (n - 1) as nat) == m.tail(list, (n - 1) as nat + 1));
        assert(m.ends_after(rest, (n - 1) as nat));
        lemma_list_end(m, rest, (n - 1) as nat);
    }
}

/// A chain that comes back to an earlier tail has a cell after every number of cdrs.
proof fn lemma_cycle(m: Memory, obj: LispObject, i: nat, j: nat, n: nat)
    requires
        i < j,
        m.tail(obj, i) is Some,
        m.tail(obj, i) == m.tail(obj, j),
    ensures
        m.nth_cell(obj, n) is Some,
    decreases n,
{
    lemma_tail_shorter(m, obj, i, j);
    if n < j {
        lemma_tail_shorter(m, obj, n, j);
    } else {
        let p = (j - i) as nat;
        let q = (n - j) as nat;
        lemma_cycle(m, obj, i, j, (n - p) as nat);
        lemma_tail_of_tail(m, obj, i, q);
        lemma_tail_of_tail(m, obj, j, q);
        assert(i + q == n - p);
        assert(j + q == n);
    }
}

/// A chain with more cells than the heap holds comes back to one of them.
proof fn lemma_repeats(m: Memory, obj: LispObject) -> (ab: (nat, nat))
    requires
        m.tail(obj, m.conses.len() + 1) is Some,
    ensures
        ab.0 < ab.1 <= m.conses.len(),
        m.tail(obj, ab.0) is Some,
        m.tail(obj, ab.0) == m.tail(obj, ab.1),
{
    let size = m.conses.len();
    let ids = Seq::<int>::new(
        size + 1,
        |k: int|
            match m.tail(obj, k as nat)->0 {
                LispObject::Cons(id) => id as int,
                _ => -1,
            },
    );
    assert forall|k: int| 0 <= k < ids.len() implies 0 <= #[trigger] ids[k] < size && m.tail(
        obj,
        k as nat,
    ) == Some(LispObject::Cons(ids[k] as usize)) by {
        lemma_tail_shorter(m, obj, k as nat, size + 1);
        assert(m.nth_cell(obj, k as nat) is Some);
    }
    if ids.no_duplicates() {
        ids.unique_seq_to_set();
        lemma_int_range(0, size as int);
        assert(ids.to_set().subset_of(set_int_range(0, size as int)));
        lemma_len_subset(ids.to_set(), set_int_range(0, size as int));
        assert(false);
    }
    let (i, j) = choose|i: int, j: int|
        0 <= i < ids.len() && 0 <= j < ids.len() && i != j && #[trigger] ids[i]
            == #[trigger] ids[j];
    if i < j {
        (i as nat, j as nat)
    } else {
        (j as nat, i as nat)
    }
}

/// A chain with more cells than the heap holds goes round in a circle.
proof fn lemma_pigeonhole(m: Memory, obj: LispObject)
    requires
        m.tail(obj, m.conses.len() + 1) is Some,
    ensures
        m.list_end(obj) is None,
        forall|n: nat| #[trigger] m.tail(obj, n) is Some,
{
    reveal(Memory::list_end);
    let (a, b) = lemma_repeats(m, obj);
    assert forall|n: nat| #[trigger] m.tail(obj, n) is Some by {
        lemma_cycle(m, obj, a, b, n);
    }
    assert forall|n: nat| !m.ends_after(obj, n) by {
        lemma_cycle(m, obj, a, b, n);
    }
}

/// Walks to the end of a chain of cells.
pub fn list_end(heap: &Heap, obj: LispObject) -> (end: Option<(usize, LispObject)>)
    ensures
        match (end, heap@.list_end(obj)) {
            (Some((n, e)), Some((len, last))) => n == len && e == last && n <= heap@.conses.len(),
            (None, None) => true,
            _ => false,
        },
{
    let size: usize = heap.cons_count();
    let mut rest = obj;
    let mut n: usize = 0;
    loop
        invariant
            size == heap@.conses.len(),
            n <= size,
            heap@.tail(obj, n as nat) == Some(rest),
        decreases size - n,
    {
        match heap.cons_at(rest) {
            None => {
                proof {
                    lemma_list_end(heap@, obj, n as nat);
                }
                return Some((n, rest));
            },
            Some(cell) => {
                assert(heap@.tail(obj, (n + 1) as nat) == Some(cell.cdr));
                if n == size {
                    proof {
                        lemma_pigeonhole(heap@, obj);
                    }
                    return None;
                }
                rest = cell.cdr;
                n = n + 1;
            },
        }
    }
}

/// Every cell of a circular chain is one of the first, as many as the heap holds.
proof fn lemma_cycle_folds(m: Memory, obj: LispObject, n: nat) -> (k: nat)
    requires
        m.tail(obj, m.conses.len() + 1) is Some,
    ensures
        k <= m.conses.len(),
        m.tail(obj, k) == m.tail(obj, n),
    decreases n,
{
    lemma_pigeonhole(m, obj);
    if n <= m.conses.len() {
        n
    } else {
        let (a, b) = lemma_repeats(m, obj);
        let q = (n - b) as nat;
        lemma_tail_of_tail(m, obj, a, q);
        lemma_tail_of_tail(m, obj, b, q);
        assert(b + q == n);
        lemma_cycle_folds(m, obj, a + q)
    }
}

/// The car of a list.
pub fn car(heap: &Heap, obj: LispObject) -> (car: Result<LispObject, LispError>)
    ensures
        car == heap@.car(obj),
{
    match heap.cons_at(obj) {
        Some(cell) => Ok(cell.car),
        None => if obj.is_nil() {
            Ok(LispObject::Symbol(QNIL))
        } else {
            Err(LispError::WrongType { predicate: QLISTP, value: obj })
        },
    }
}

/// The cdr of a list.
pub fn cdr(heap: &Heap, obj: LispObject) -> (cdr: Result<LispObject, LispError>)
    ensures
        cdr == heap@.cdr(obj),
{
    match heap.cons_at(obj) {
        Some(cell) => Ok(cell.cdr),
        None => if obj.is_nil() {
            Ok(LispObject::Symbol(QNIL))
        } else {
            Err(LispError::WrongType { predicate: QLISTP, value: obj })
        },
    }
}

/// Whether a chain of cells ends with nil.
pub fn genuine_list(heap: &Heap, obj: LispObject) -> (genuine: bool)
    ensures
        genuine == heap@.genuine_list(obj),
{
    let end = list_end(heap, obj);
    proof {
        if heap@.genuine_list(obj) {
            let n = choose|n: nat| heap@.tail(obj, n) == Some(LispObject::nil());
            lemma_list_end(heap@, obj, n);
        } else if heap@.list_end(obj) is Some {
            lemma_end_reached(heap@, obj);
        }
    }
    match end {
        Some((_, last)) => last.is_nil(),
        None => false,
    }
}

/// The number of elements of a list.
pub fn length(heap: &Heap, list: LispObject) -> (length: Result<usize, LispError>)
    ensures
        match (length, heap@.length(list)) {
            (Ok(n), Ok(len)) => n == len,
            (Err(e), Err(error)) => e == error,
            _ => false,
        },
{
    match list_end(heap, list) {
        Some((n, last)) => if last.is_nil() {
            Ok(n)
        } else {
            Err(LispError::WrongType { predicate: QLISTP, value: list })
        },
        None => Err(LispError::CircularList { list }),
    }
}

/// The next cell of a walk over `list` that has come to `rest`.
pub fn next_cell(heap: &Heap, list: LispObject, rest: LispObject) -> (cell: Result<
    Option<Cons>,
    LispError,
>)
    ensures
        cell == heap@.next_cell(list, rest),
{
    match heap.cons_at(rest) {
        Some(cell) => if list_end(heap, rest).is_none() {
            Err(LispError::CircularList { list })
        } else {
            Ok(Some(cell))
        },
        None => if rest.is_nil() {
            Ok(None)
        } else {
            Err(LispError::WrongType { predicate: QLISTP, value: list })
        },
    }
}

/// The first element of `list` that is a cell with the car `key`, or nil.
/// Elements that are no cells are passed over.
pub fn assq(heap: &Heap, key: LispObject, list: LispObject) -> (found: Result<
    LispObject,
    LispError,
>)
    ensures
        found == heap@.assq(key, list),
{
    let size: usize = heap.cons_count();
    let mut rest = list;
    let mut n: usize = 0;
    loop
        invariant
            size == heap@.conses.len(),
            n <= size,
            heap@.tail(list, n as nat) == Some(rest),
            forall|k: nat| k < n ==> !heap@.assq_at(key, list, k),
        decreases size - n,
    {
        match heap.cons_at(rest) {
            None => {
                proof {
                    lemma_list_end(heap@, list, n as nat);
                    assert forall|k: nat| !heap@.assq_at(key, list, k) by {
                        if heap@.assq_at(key, list, k) && k > n {
                            lemma_tail_shorter(heap@, list, n as nat, k);
                        }
                    }
                    lemma_assq_missing(heap@, key, list);
                }
                return if rest.is_nil() {
                    Ok(LispObject::Symbol(QNIL))
                } else {
                    Err(LispError::WrongType { predicate: QLISTP, value: list })
                };
            },
            Some(cell) => {
                if let Some(pair) = heap.cons_at(cell.car) {
                    if pair.car == key {
                        proof {
                            lemma_assq_found(heap@, key, list, n as nat);
                        }
                        return Ok(cell.car);
                    }
                }
                assert(heap@.tail(list, (n + 1) as nat) == Some(cell.cdr));
                if n == size {
                    proof {
                        lemma_pigeonhole(heap@, list);
                        assert forall|k: nat| !heap@.assq_at(key, list, k) by {
                            let j = lemma_cycle_folds(heap@, list, k);
                            assert(!heap@.assq_at(key, list, j));
                        }
                        lemma_assq_missing(heap@, key, list);
                    }
                    return Err(LispError::CircularList { list });
                }
                rest = cell.cdr;
                n = n + 1;
            },
        }
    }
}

/// The first tail of `list` whose car is `elt`, or nil.
pub fn memq(heap: &Heap, elt: LispObject, list: LispObject) -> (found: Result<
    LispObject,
    LispError,
>)
    ensures
        found == heap@.memq(elt, list),
{
    let size: usize = heap.cons_count();
    let mut rest = list;
    let mut n: usize = 0;
    loop
        invariant
            size == heap@.conses.len(),
            n <= size,
            heap@.tail(list, n as nat) == Some(rest),
            forall|k: nat| k < n ==> !heap@.memq_at(elt, list, k),
        decreases size - n,
    {
        match heap.cons_at(rest) {
            None => {
                proof {
                    lemma_list_end(heap@, list, n as nat);
                    assert forall|k: nat| !heap@.memq_at(elt, list, k) by {
                        if heap@.memq_at(elt, list, k) && k > n {
                            lemma_tail_shorter(heap@, list, n as nat, k);
                        }
                    }
                    lemma_memq_missing(heap@, elt, list);
                }
                return if rest.is_nil() {
                    Ok(LispObject::Symbol(QNIL))
                } else {
                    Err(LispError::WrongType { predicate: QLISTP, value: list })
                };
            },
            Some(cell) => {
                if cell.car == elt {
                    proof {
                        lemma_memq_found(heap@, elt, list, n as nat);
                    }
                    return Ok(rest);
                }
                assert(heap@.tail(list, (n + 1) as nat) == Some(cell.cdr));
                if n == size {
                    proof {
                        lemma_pigeonhole(heap@, list);
                        assert forall|k: nat| !heap@.memq_at(elt, list, k) by {
                            let j = lemma_cycle_folds(heap@, list, k);
                            assert(!heap@.memq_at(elt, list, j));
                        }
                        lemma_memq_missing(heap@, elt, list);
                    }
                    return Err(LispError::CircularList { list });
                }
                rest = cell.cdr;
                n = n + 1;
            },
        }
    }
}

} // verus!

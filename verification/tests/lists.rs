//! Lists, errors and the heap.
use lisp_eval::errors::{signal, signal_error, LispError};
use lisp_eval::heap::{Cons, Heap, Vectorlike};
use lisp_eval::lists::{assq, car, cdr, genuine_list, length, list_end, memq, next_cell};
use lisp_eval::machine::Bindings;
use lisp_eval::object::{
    LispObject, QCIRCULAR_LIST, QCONSP, QERROR, QLISTP, QSETQ, QWRONG_NUMBER_OF_ARGUMENTS,
    QWRONG_TYPE_ARGUMENT, STATIC_SYMBOLS,
};

fn num(n: i64) -> LispObject {
    LispObject::Fixnum(n)
}

fn nil() -> LispObject {
    LispObject::nil()
}

fn sym(id: usize) -> LispObject {
    LispObject::Symbol(id)
}

fn list(heap: &mut Heap, items: &[LispObject]) -> LispObject {
    let mut rest = nil();
    for item in items.iter().rev() {
        rest = heap.cons(*item, rest);
    }
    rest
}

fn elements(heap: &Heap, obj: LispObject) -> Vec<LispObject> {
    let mut rest = obj;
    let mut items = Vec::new();
    while let Some(cell) = heap.cons_at(rest) {
        items.push(cell.car);
        rest = cell.cdr;
    }
    items
}

/// A list of `n` numbers whose last cell leads back to the cell `back`.
fn ring(heap: &mut Heap, n: i64, back: usize) -> LispObject {
    let items: Vec<LispObject> = (0..n).map(num).collect();
    let first = list(heap, &items);
    let mut cells = Vec::new();
    let mut rest = first;
    while let Some(cell) = heap.cons_at(rest) {
        cells.push(rest);
        rest = cell.cdr;
    }
    heap.set_cdr(cells[cells.len() - 1], cells[back]);
    first
}

#[test]
fn ends_of_chains() {
    let mut heap = Heap::new();
    let three = list(&mut heap, &[num(1), num(2), num(3)]);
    let dotted = heap.cons(num(1), num(2));
    let circle = ring(&mut heap, 3, 0);
    let late = ring(&mut heap, 4, 2);
    assert_eq!(list_end(&heap, three), Some((3, nil())));
    assert_eq!(list_end(&heap, dotted), Some((1, num(2))));
    assert_eq!(list_end(&heap, nil()), Some((0, nil())));
    assert_eq!(list_end(&heap, circle), None);
    assert_eq!(list_end(&heap, late), None);
    assert!(genuine_list(&heap, three));
    assert!(genuine_list(&heap, nil()));
    assert!(!genuine_list(&heap, dotted));
    assert!(!genuine_list(&heap, num(1)));
    assert!(!genuine_list(&heap, circle));
}

#[test]
fn lengths() {
    let mut heap = Heap::new();
    let three = list(&mut heap, &[num(1), num(2), num(3)]);
    let dotted = heap.cons(num(1), num(2));
    let circle = ring(&mut heap, 3, 1);
    assert_eq!(length(&heap, three), Ok(3));
    assert_eq!(length(&heap, nil()), Ok(0));
    assert_eq!(
        length(&heap, dotted),
        Err(LispError::WrongType { predicate: QLISTP, value: dotted })
    );
    assert_eq!(length(&heap, circle), Err(LispError::CircularList { list: circle }));
}

#[test]
fn halves_of_cells() {
    let mut heap = Heap::new();
    let pair = heap.cons(num(1), num(2));
    assert_eq!(car(&heap, pair), Ok(num(1)));
    assert_eq!(cdr(&heap, pair), Ok(num(2)));
    assert_eq!(car(&heap, nil()), Ok(nil()));
    assert_eq!(cdr(&heap, nil()), Ok(nil()));
    let wrong = Err(LispError::WrongType { predicate: QLISTP, value: num(4) });
    assert_eq!(car(&heap, num(4)), wrong);
    assert_eq!(cdr(&heap, num(4)), wrong);
}

#[test]
fn walks() {
    let mut heap = Heap::new();
    let rest = heap.cons(num(2), num(3));
    let dotted = heap.cons(num(1), rest);
    assert_eq!(next_cell(&heap, dotted, rest), Ok(Some(Cons { car: num(2), cdr: num(3) })));
    assert_eq!(
        next_cell(&heap, dotted, num(3)),
        Err(LispError::WrongType { predicate: QLISTP, value: dotted })
    );
    assert_eq!(next_cell(&heap, dotted, nil()), Ok(None));
    let circle = ring(&mut heap, 2, 0);
    assert_eq!(
        next_cell(&heap, circle, circle),
        Err(LispError::CircularList { list: circle })
    );
}

#[test]
fn assq_finds_the_first_pair() {
    let mut heap = Heap::new();
    let a = heap.cons(num(1), num(10));
    let b = heap.cons(num(2), num(20));
    let c = heap.cons(num(1), num(30));
    let alist = list(&mut heap, &[num(1), a, b, c]);
    assert_eq!(assq(&heap, num(1), alist), Ok(a));
    assert_eq!(assq(&heap, num(2), alist), Ok(b));
    assert_eq!(assq(&heap, num(3), alist), Ok(nil()));
    assert_eq!(
        assq(&heap, num(3), num(9)),
        Err(LispError::WrongType { predicate: QLISTP, value: num(9) })
    );
    let dotted = heap.cons(a, num(9));
    assert_eq!(assq(&heap, num(1), dotted), Ok(a));
    assert_eq!(
        assq(&heap, num(2), dotted),
        Err(LispError::WrongType { predicate: QLISTP, value: dotted })
    );
}

#[test]
fn memq_finds_the_first_tail() {
    let mut heap = Heap::new();
    let tail = list(&mut heap, &[num(2), num(1)]);
    let whole = heap.cons(num(1), tail);
    assert_eq!(memq(&heap, num(1), whole), Ok(whole));
    assert_eq!(memq(&heap, num(2), whole), Ok(tail));
    assert_eq!(memq(&heap, num(3), whole), Ok(nil()));
    let dotted = heap.cons(num(1), num(9));
    assert_eq!(
        memq(&heap, num(3), dotted),
        Err(LispError::WrongType { predicate: QLISTP, value: dotted })
    );
}

#[test]
fn searches_come_back_from_a_circle() {
    let mut heap = Heap::new();
    let circle = ring(&mut heap, 3, 1);
    assert_eq!(memq(&heap, num(2), circle).map(|tail| heap.cell(tail).car), Ok(num(2)));
    assert_eq!(memq(&heap, num(7), circle), Err(LispError::CircularList { list: circle }));
    assert_eq!(assq(&heap, num(7), circle), Err(LispError::CircularList { list: circle }));
}

#[test]
fn errors_carry_lists() {
    let mut heap = Heap::new();
    let raised = signal(&mut heap, LispError::WrongType { predicate: QCONSP, value: num(4) });
    assert_eq!(raised.condition, sym(QWRONG_TYPE_ARGUMENT));
    assert_eq!(elements(&heap, raised.data), vec![sym(QCONSP), num(4)]);
    let raised =
        signal(&mut heap, LispError::WrongNumberOfArguments { function: QSETQ, count: 3 });
    assert_eq!(raised.condition, sym(QWRONG_NUMBER_OF_ARGUMENTS));
    assert_eq!(elements(&heap, raised.data), vec![sym(QSETQ), num(3)]);
    let circle = ring(&mut heap, 1, 0);
    let raised = signal(&mut heap, LispError::CircularList { list: circle });
    assert_eq!(raised.condition, sym(QCIRCULAR_LIST));
    assert_eq!(elements(&heap, raised.data), vec![circle]);
    let raised = signal(&mut heap, LispError::TooManyArguments);
    assert_eq!(raised.condition, sym(QERROR));
    let items = elements(&heap, raised.data);
    assert_eq!(items.len(), 1);
    assert_eq!(heap.string_at(items[0]), Some("Too many arguments"));
}

#[test]
fn signal_error_makes_a_list_of_what_is_none() {
    let mut heap = Heap::new();
    let genuine = list(&mut heap, &[num(1), num(2)]);
    let dotted = heap.cons(num(1), num(2));
    let circle = ring(&mut heap, 2, 0);
    let raised = signal_error(&mut heap, "oops", genuine);
    assert_eq!(elements(&heap, raised.data)[1..], [num(1), num(2)]);
    assert_eq!(heap.string_at(elements(&heap, raised.data)[0]), Some("oops"));
    for arg in [num(5), dotted, circle] {
        let raised = signal_error(&mut heap, "oops", arg);
        assert_eq!(raised.condition, sym(QERROR));
        assert_eq!(elements(&heap, raised.data)[1..], [arg]);
    }
    let raised = signal_error(&mut heap, "oops", nil());
    assert_eq!(elements(&heap, raised.data).len(), 1);
}

#[test]
fn a_new_heap() {
    let mut heap = Heap::new();
    assert_eq!(heap.cons_count(), 0);
    assert_eq!(heap.lexenv(), nil());
    assert_eq!(heap.purify_flag(), nil());
    assert_eq!(heap.make_symbol().id, STATIC_SYMBOLS);
    assert_eq!(heap.function(STATIC_SYMBOLS), nil());
    assert!(!heap.declared_special(STATIC_SYMBOLS));
    let vector = heap.make_vectorlike(Vectorlike::Vector);
    assert_eq!(heap.vectorlike_at(vector), Some(Vectorlike::Vector));
    assert_eq!(heap.vectorlike_at(num(1)), None);
    assert_eq!(heap.string_at(num(1)), None);
}

#[test]
fn bindings_in_the_opposite_order() {
    let one = Bindings::Bind { var: num(1), val: num(10), rest: Box::new(Bindings::Empty) };
    let two = Bindings::Bind { var: num(2), val: num(20), rest: Box::new(one) };
    let last = Bindings::Bind { var: num(2), val: num(20), rest: Box::new(Bindings::Empty) };
    assert_eq!(
        two.reversed(),
        Bindings::Bind { var: num(1), val: num(10), rest: Box::new(last) }
    );
}

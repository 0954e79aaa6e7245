//! Conditionals, sequencing and loops, one request at a time.
use lisp_eval::control::{
    and, cond, lisp_if, lisp_while, or, prog1, prog2, prog_ignore, progn,
};
use lisp_eval::errors::LispError;
use lisp_eval::heap::Heap;
use lisp_eval::machine::{Request, Step};
use lisp_eval::object::{LispCons, LispObject, QCONSP};
use lisp_eval::resume::{can_resume, resume};

fn num(n: i64) -> LispObject {
    LispObject::Fixnum(n)
}

fn nil() -> LispObject {
    LispObject::nil()
}

fn t() -> LispObject {
    LispObject::t()
}

fn list(heap: &mut Heap, items: &[LispObject]) -> LispObject {
    let mut rest = nil();
    for item in items.iter().rev() {
        rest = heap.cons(*item, rest);
    }
    rest
}

fn as_cell(obj: LispObject) -> LispCons {
    match obj {
        LispObject::Cons(id) => LispCons { id },
        _ => panic!("no cell: {:?}", obj),
    }
}

/// Answers the requests of a run in order; returns the requests and the last step.
fn run(heap: &mut Heap, first: Step, replies: &[LispObject]) -> (Vec<Request>, Step) {
    let mut step = first;
    let mut requests = Vec::new();
    for reply in replies {
        match step {
            Step::Call(request, frame) => {
                requests.push(request);
                assert!(can_resume(heap, &frame, *reply));
                step = resume(heap, frame, *reply);
            }
            other => panic!("nothing was asked: {:?}", other),
        }
    }
    (requests, step)
}

fn evals(forms: &[i64]) -> Vec<Request> {
    forms.iter().map(|n| Request::Eval { form: num(*n) }).collect()
}

#[test]
fn or_stops_at_the_first_value() {
    let mut heap = Heap::new();
    let args = list(&mut heap, &[num(1), num(2), num(3)]);
    let first = or(&heap, args);
    let (requests, step) = run(&mut heap, first, &[nil(), num(20)]);
    assert_eq!(requests, evals(&[1, 2]));
    assert_eq!(step, Step::Done(num(20)));
}

#[test]
fn or_of_nils_is_nil() {
    let mut heap = Heap::new();
    let args = list(&mut heap, &[num(1), num(2)]);
    let first = or(&heap, args);
    let (requests, step) = run(&mut heap, first, &[nil(), nil()]);
    assert_eq!(requests, evals(&[1, 2]));
    assert_eq!(step, Step::Done(nil()));
    assert_eq!(or(&heap, nil()), Step::Done(nil()));
}

#[test]
fn or_stops_at_a_dotted_end() {
    let mut heap = Heap::new();
    let args = heap.cons(num(1), num(2));
    let first = or(&heap, args);
    let (requests, step) = run(&mut heap, first, &[nil()]);
    assert_eq!(requests, evals(&[1]));
    assert_eq!(step, Step::Done(nil()));
}

#[test]
fn and_stops_at_the_first_nil() {
    let mut heap = Heap::new();
    let args = list(&mut heap, &[num(1), num(2), num(3)]);
    let first = and(&heap, args);
    let (requests, step) = run(&mut heap, first, &[num(10), nil()]);
    assert_eq!(requests, evals(&[1, 2]));
    assert_eq!(step, Step::Done(nil()));
}

#[test]
fn and_returns_the_last_value() {
    let mut heap = Heap::new();
    let args = list(&mut heap, &[num(1), num(2)]);
    let first = and(&heap, args);
    let (requests, step) = run(&mut heap, first, &[num(10), num(20)]);
    assert_eq!(requests, evals(&[1, 2]));
    assert_eq!(step, Step::Done(num(20)));
    assert_eq!(and(&heap, nil()), Step::Done(t()));
}

#[test]
fn if_takes_the_second_form() {
    let mut heap = Heap::new();
    let args = list(&mut heap, &[num(1), num(2), num(3)]);
    let first = lisp_if(&heap, args);
    let (requests, step) = run(&mut heap, first, &[t(), num(20)]);
    assert_eq!(requests, evals(&[1, 2]));
    assert_eq!(step, Step::Done(num(20)));
}

#[test]
fn if_takes_the_other_forms() {
    let mut heap = Heap::new();
    let args = list(&mut heap, &[num(1), num(2), num(3), num(4)]);
    let first = lisp_if(&heap, args);
    let (requests, step) = run(&mut heap, first, &[nil(), num(30), num(40)]);
    assert_eq!(requests, evals(&[1, 3, 4]));
    assert_eq!(step, Step::Done(num(40)));
}

#[test]
fn if_without_other_forms_is_nil() {
    let mut heap = Heap::new();
    let args = list(&mut heap, &[num(1), num(2)]);
    let first = lisp_if(&heap, args);
    let (requests, step) = run(&mut heap, first, &[nil()]);
    assert_eq!(requests, evals(&[1]));
    assert_eq!(step, Step::Done(nil()));
}

#[test]
fn if_needs_its_cells() {
    let mut heap = Heap::new();
    assert_eq!(
        lisp_if(&heap, num(7)),
        Step::Fail(LispError::WrongType { predicate: QCONSP, value: num(7) })
    );
    let args = list(&mut heap, &[num(1)]);
    let first = lisp_if(&heap, args);
    let (_, step) = run(&mut heap, first, &[t()]);
    assert_eq!(step, Step::Fail(LispError::WrongType { predicate: QCONSP, value: nil() }));
}

#[test]
fn if_sees_the_form_as_it_is_now() {
    let mut heap = Heap::new();
    let args = list(&mut heap, &[num(1), num(2)]);
    let other = list(&mut heap, &[num(5)]);
    match lisp_if(&heap, args) {
        Step::Call(_, frame) => {
            heap.set_cdr(args, other);
            let step = resume(&mut heap, frame, t());
            match step {
                Step::Call(request, _) => assert_eq!(request, Request::Eval { form: num(5) }),
                other => panic!("{:?}", other),
            }
        }
        other => panic!("{:?}", other),
    }
}

#[test]
fn cond_takes_the_first_clause_that_holds() {
    let mut heap = Heap::new();
    let a = list(&mut heap, &[num(1), num(2)]);
    let b = list(&mut heap, &[num(3), num(4), num(5)]);
    let c = list(&mut heap, &[num(6)]);
    let args = list(&mut heap, &[a, b, c]);
    let first = cond(&heap, args);
    let (requests, step) = run(&mut heap, first, &[nil(), t(), num(40), num(50)]);
    assert_eq!(requests, evals(&[1, 3, 4, 5]));
    assert_eq!(step, Step::Done(num(50)));
}

#[test]
fn cond_returns_the_condition_of_a_short_clause() {
    let mut heap = Heap::new();
    let a = list(&mut heap, &[num(1)]);
    let args = list(&mut heap, &[a]);
    let first = cond(&heap, args);
    let (_, step) = run(&mut heap, first, &[num(10)]);
    assert_eq!(step, Step::Done(num(10)));
}

#[test]
fn cond_without_a_match_is_nil() {
    let mut heap = Heap::new();
    let a = list(&mut heap, &[num(1), num(2)]);
    let args = list(&mut heap, &[a]);
    let first = cond(&heap, args);
    let (requests, step) = run(&mut heap, first, &[nil()]);
    assert_eq!(requests, evals(&[1]));
    assert_eq!(step, Step::Done(nil()));
    assert_eq!(cond(&heap, nil()), Step::Done(nil()));
}

#[test]
fn cond_refuses_a_clause_that_is_no_list() {
    let mut heap = Heap::new();
    let args = list(&mut heap, &[num(9)]);
    assert_eq!(
        cond(&heap, args),
        Step::Fail(LispError::WrongType { predicate: QCONSP, value: num(9) })
    );
}

#[test]
fn progn_returns_the_last_value() {
    let mut heap = Heap::new();
    let args = list(&mut heap, &[num(1), num(2)]);
    let first = progn(&heap, args);
    let (requests, step) = run(&mut heap, first, &[num(10), num(20)]);
    assert_eq!(requests, evals(&[1, 2]));
    assert_eq!(step, Step::Done(num(20)));
    assert_eq!(progn(&heap, nil()), Step::Done(nil()));
}

#[test]
fn prog_ignore_drops_the_values() {
    let mut heap = Heap::new();
    let args = list(&mut heap, &[num(1), num(2)]);
    let first = prog_ignore(&heap, args);
    let (requests, step) = run(&mut heap, first, &[num(10), num(20)]);
    assert_eq!(requests, evals(&[1, 2]));
    assert_eq!(step, Step::Done(nil()));
}

#[test]
fn prog1_returns_the_first_value() {
    let mut heap = Heap::new();
    let args = list(&mut heap, &[num(1), num(2), num(3)]);
    let first = prog1(&heap, args);
    let (requests, step) = run(&mut heap, first, &[num(10), num(20), num(30)]);
    assert_eq!(requests, evals(&[1, 2, 3]));
    assert_eq!(step, Step::Done(num(10)));
    assert_eq!(
        prog1(&heap, nil()),
        Step::Fail(LispError::WrongType { predicate: QCONSP, value: nil() })
    );
}

#[test]
fn prog2_returns_the_second_value() {
    let mut heap = Heap::new();
    let args = list(&mut heap, &[num(1), num(2), num(3)]);
    let first = prog2(&heap, args);
    let (requests, step) = run(&mut heap, first, &[num(10), num(20), num(30)]);
    assert_eq!(requests, evals(&[1, 2, 3]));
    assert_eq!(step, Step::Done(num(20)));
}

#[test]
fn prog2_needs_a_second_form() {
    let mut heap = Heap::new();
    let args = list(&mut heap, &[num(1)]);
    let first = prog2(&heap, args);
    let (requests, step) = run(&mut heap, first, &[num(10)]);
    assert_eq!(requests, evals(&[1]));
    assert_eq!(step, Step::Fail(LispError::WrongType { predicate: QCONSP, value: nil() }));
}

#[test]
fn while_goes_round_until_the_test_is_nil() {
    let mut heap = Heap::new();
    let args = list(&mut heap, &[num(1), num(2), num(3)]);
    let first = lisp_while(&heap, as_cell(args));
    let replies = [t(), nil(), num(20), num(30), t(), nil(), num(20), num(30), nil()];
    let (requests, step) = run(&mut heap, first, &replies);
    let mut expected = evals(&[1]);
    expected.push(Request::MaybeQuit);
    expected.extend(evals(&[2, 3, 1]));
    expected.push(Request::MaybeQuit);
    expected.extend(evals(&[2, 3, 1]));
    assert_eq!(requests, expected);
    assert_eq!(step, Step::Done(nil()));
}

#[test]
fn while_without_a_body_polls() {
    let mut heap = Heap::new();
    let args = list(&mut heap, &[num(1)]);
    let first = lisp_while(&heap, as_cell(args));
    let (requests, step) = run(&mut heap, first, &[t(), nil(), nil()]);
    assert_eq!(
        requests,
        vec![
            Request::Eval { form: num(1) },
            Request::MaybeQuit,
            Request::Eval { form: num(1) }
        ]
    );
    assert_eq!(step, Step::Done(nil()));
}

#[test]
fn progn_of_an_appended_list_runs_part_by_part() {
    let mut heap = Heap::new();
    let a = list(&mut heap, &[num(1), num(2)]);
    let b = list(&mut heap, &[num(3)]);
    let whole = list(&mut heap, &[num(1), num(2), num(3)]);
    let first = progn(&heap, whole);
    let (requests, step) = run(&mut heap, first, &[num(10), num(20), num(30)]);
    let first = progn(&heap, a);
    let (mut expected, _) = run(&mut heap, first, &[num(10), num(20)]);
    let first = progn(&heap, b);
    let (late, value) = run(&mut heap, first, &[num(30)]);
    expected.extend(late);
    assert_eq!(requests, expected);
    assert_eq!(step, value);
}

#[test]
fn cond_of_bare_conditions_runs_as_or() {
    let mut heap = Heap::new();
    let clauses: Vec<LispObject> =
        [1, 2, 3].iter().map(|n| list(&mut heap, &[num(*n)])).collect();
    let of_cond = list(&mut heap, &clauses);
    let of_or = list(&mut heap, &[num(1), num(2), num(3)]);
    for replies in [vec![nil(), num(20)], vec![nil(), nil(), nil()], vec![num(10)]] {
        let first = cond(&heap, of_cond);
        let (requests, step) = run(&mut heap, first, &replies);
        let first = or(&heap, of_or);
        assert_eq!((requests, step), run(&mut heap, first, &replies));
    }
}

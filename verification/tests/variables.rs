//! Setting and defining variables, one request at a time.
use lisp_eval::errors::LispError;
use lisp_eval::heap::{Cons, Heap};
use lisp_eval::machine::{Request, Step};
use lisp_eval::object::{
    LispObject, QCONSP, QLISTP, QRISKY_LOCAL_VARIABLE, QSETQ, QSYMBOLP, QVARIABLE_DOCUMENTATION,
};
use lisp_eval::resume::{can_resume, resume};
use lisp_eval::variables::{defconst, make_var_non_special, setq, special_variable_p};

fn num(n: i64) -> LispObject {
    LispObject::Fixnum(n)
}

fn nil() -> LispObject {
    LispObject::nil()
}

fn list(heap: &mut Heap, items: &[LispObject]) -> LispObject {
    let mut rest = nil();
    for item in items.iter().rev() {
        rest = heap.cons(*item, rest);
    }
    rest
}

fn run(heap: &mut Heap, first: Step, replies: &[LispObject]) -> (Vec<Request>, Step) {
    let mut step = first;
    let mut requests = Vec::new();
    for reply in replies {
        match step {
            Step::Call(request, frame) => {
                requests.push(request);
                assert!(can_resume(heap, &frame, *reply));
                step = resume(heap, frame, *reply);
            }
            other => panic!("nothing was asked: {:?}", other),
        }
    }
    (requests, step)
}

#[test]
fn setq_sets_one_variable_after_the_other() {
    let mut heap = Heap::new();
    let x = heap.make_symbol().as_lisp_obj();
    let y = heap.make_symbol().as_lisp_obj();
    let args = list(&mut heap, &[x, num(1), y, num(2)]);
    let first = setq(&heap, args);
    let (requests, step) = run(&mut heap, first, &[num(10), nil(), num(20), nil()]);
    assert_eq!(
        requests,
        vec![
            Request::Eval { form: num(1) },
            Request::SetValue { sym: x, val: num(10) },
            Request::Eval { form: num(2) },
            Request::SetValue { sym: y, val: num(20) },
        ]
    );
    assert_eq!(step, Step::Done(num(20)));
    assert_eq!(setq(&heap, nil()), Step::Done(nil()));
}

#[test]
fn setq_counts_its_arguments() {
    let mut heap = Heap::new();
    let x = heap.make_symbol().as_lisp_obj();
    let args = list(&mut heap, &[x, num(1), x]);
    let first = setq(&heap, args);
    let (_, step) = run(&mut heap, first, &[num(10), nil()]);
    assert_eq!(
        step,
        Step::Fail(LispError::WrongNumberOfArguments { function: QSETQ, count: 3 })
    );
    let args = list(&mut heap, &[x]);
    assert_eq!(
        setq(&heap, args),
        Step::Fail(LispError::WrongNumberOfArguments { function: QSETQ, count: 1 })
    );
}

#[test]
fn setq_refuses_what_is_no_list() {
    let mut heap = Heap::new();
    assert_eq!(
        setq(&heap, num(3)),
        Step::Fail(LispError::WrongType { predicate: QLISTP, value: num(3) })
    );
    let x = heap.make_symbol().as_lisp_obj();
    let dotted = heap.cons(x, num(3));
    assert_eq!(
        setq(&heap, dotted),
        Step::Fail(LispError::WrongType { predicate: QLISTP, value: dotted })
    );
    let ring = heap.cons(x, nil());
    heap.set_cdr(ring, ring);
    assert_eq!(setq(&heap, ring), Step::Fail(LispError::CircularList { list: ring }));
}

#[test]
fn setq_changes_a_lexical_binding_in_place() {
    let mut heap = Heap::new();
    let x = heap.make_symbol().as_lisp_obj();
    let y = heap.make_symbol().as_lisp_obj();
    let binding = heap.cons(x, num(0));
    let hidden = heap.cons(x, num(-1));
    let env = list(&mut heap, &[LispObject::t(), binding, hidden]);
    heap.set_lexenv(env);
    let args = list(&mut heap, &[x, num(1), y, num(2)]);
    let first = setq(&heap, args);
    let (requests, step) = run(&mut heap, first, &[num(10), num(20), nil()]);
    assert_eq!(
        requests,
        vec![
            Request::Eval { form: num(1) },
            Request::Eval { form: num(2) },
            Request::SetValue { sym: y, val: num(20) },
        ]
    );
    assert_eq!(step, Step::Done(num(20)));
    assert_eq!(heap.lexenv(), env);
    assert_eq!(heap.cons_at(binding), Some(Cons { car: x, cdr: num(10) }));
    assert_eq!(heap.cons_at(hidden), Some(Cons { car: x, cdr: num(-1) }));
}

#[test]
fn setq_fails_in_a_broken_environment() {
    let mut heap = Heap::new();
    let x = heap.make_symbol().as_lisp_obj();
    let env = heap.cons(LispObject::t(), num(4));
    heap.set_lexenv(env);
    let args = list(&mut heap, &[x, num(1)]);
    let first = setq(&heap, args);
    let (_, step) = run(&mut heap, first, &[num(10)]);
    assert_eq!(step, Step::Fail(LispError::WrongType { predicate: QLISTP, value: env }));
}

#[test]
fn setq_leaves_other_places_to_the_core() {
    let mut heap = Heap::new();
    let env = list(&mut heap, &[LispObject::t()]);
    heap.set_lexenv(env);
    let args = list(&mut heap, &[num(7), num(1)]);
    let first = setq(&heap, args);
    let (requests, _) = run(&mut heap, first, &[num(10), nil()]);
    assert_eq!(requests[1], Request::SetValue { sym: num(7), val: num(10) });
}

#[test]
fn defconst_without_documentation() {
    let mut heap = Heap::new();
    let symbol = heap.make_symbol();
    let x = symbol.as_lisp_obj();
    let args = list(&mut heap, &[x, num(1)]);
    let first = defconst(&heap, args);
    let (requests, step) = run(&mut heap, first, &[num(10), nil()]);
    assert_eq!(
        requests,
        vec![Request::Eval { form: num(1) }, Request::SetDefault { sym: x, val: num(10) }]
    );
    assert!(special_variable_p(&heap, symbol));
    let (requests, step) = run(&mut heap, step, &[nil(), nil()]);
    assert_eq!(
        requests,
        vec![
            Request::Put {
                sym: x,
                prop: LispObject::Symbol(QRISKY_LOCAL_VARIABLE),
                val: LispObject::t()
            },
            Request::LoadhistAttach { sym: x },
        ]
    );
    assert_eq!(step, Step::Done(x));
    assert!(make_var_non_special(&mut heap, symbol));
    assert!(!special_variable_p(&heap, symbol));
}

#[test]
fn defconst_with_documentation() {
    let mut heap = Heap::new();
    let x = heap.make_symbol().as_lisp_obj();
    let doc = heap.make_string("A constant.");
    let args = list(&mut heap, &[x, num(1), doc]);
    let first = defconst(&heap, args);
    let (requests, step) = run(&mut heap, first, &[num(10), nil(), nil(), nil(), nil()]);
    assert_eq!(
        requests[2],
        Request::Put { sym: x, prop: LispObject::Symbol(QVARIABLE_DOCUMENTATION), val: doc }
    );
    assert_eq!(requests[4], Request::LoadhistAttach { sym: x });
    assert_eq!(step, Step::Done(x));
}

#[test]
fn defconst_copies_to_pure_storage() {
    let mut heap = Heap::new();
    heap.set_purify_flag(LispObject::t());
    let x = heap.make_symbol().as_lisp_obj();
    let doc = heap.make_string("A constant.");
    let pure_doc = heap.make_string("A constant.");
    let args = list(&mut heap, &[x, num(1), doc]);
    let first = defconst(&heap, args);
    let replies = [num(10), num(11), nil(), pure_doc, nil(), nil(), nil()];
    let (requests, step) = run(&mut heap, first, &replies);
    assert_eq!(
        requests,
        vec![
            Request::Eval { form: num(1) },
            Request::Purecopy { obj: num(10) },
            Request::SetDefault { sym: x, val: num(11) },
            Request::Purecopy { obj: doc },
            Request::Put {
                sym: x,
                prop: LispObject::Symbol(QVARIABLE_DOCUMENTATION),
                val: pure_doc
            },
            Request::Put {
                sym: x,
                prop: LispObject::Symbol(QRISKY_LOCAL_VARIABLE),
                val: LispObject::t()
            },
            Request::LoadhistAttach { sym: x },
        ]
    );
    assert_eq!(step, Step::Done(x));
}

#[test]
fn defconst_refuses_too_many_parts() {
    let mut heap = Heap::new();
    let x = heap.make_symbol().as_lisp_obj();
    let args = list(&mut heap, &[x, num(1), num(2), num(3)]);
    assert_eq!(defconst(&heap, args), Step::Fail(LispError::TooManyArguments));
}

#[test]
fn defconst_refuses_what_is_no_list() {
    let mut heap = Heap::new();
    assert_eq!(
        defconst(&heap, num(1)),
        Step::Fail(LispError::WrongType { predicate: QCONSP, value: num(1) })
    );
    let x = heap.make_symbol().as_lisp_obj();
    let dotted = heap.cons(x, num(2));
    assert_eq!(
        defconst(&heap, dotted),
        Step::Fail(LispError::WrongType { predicate: QLISTP, value: num(2) })
    );
}

#[test]
fn defconst_refuses_what_is_no_symbol() {
    let mut heap = Heap::new();
    let args = list(&mut heap, &[num(9), num(1)]);
    let first = defconst(&heap, args);
    let (requests, step) = run(&mut heap, first, &[num(10), nil()]);
    assert_eq!(requests[1], Request::SetDefault { sym: num(9), val: num(10) });
    assert_eq!(step, Step::Fail(LispError::WrongType { predicate: QSYMBOLP, value: num(9) }));
}

#[test]
fn setq_of_several_pairs_runs_one_by_one() {
    for lexical in [false, true] {
        let mut heap = Heap::new();
        let x = heap.make_symbol().as_lisp_obj();
        let y = heap.make_symbol().as_lisp_obj();
        let binding = heap.cons(x, num(0));
        if lexical {
            let env = list(&mut heap, &[binding]);
            heap.set_lexenv(env);
        }
        let whole = list(&mut heap, &[x, num(1), y, num(2)]);
        let one = list(&mut heap, &[x, num(1)]);
        let rest = list(&mut heap, &[y, num(2)]);
        let early = if lexical { vec![num(10)] } else { vec![num(10), nil()] };
        let late = vec![num(20), nil()];
        let first = setq(&heap, one);
        let (mut expected, step) = run(&mut heap, first, &early);
        assert_eq!(step, Step::Done(num(10)));
        let stored = heap.cons_at(binding);
        heap.set_cdr(binding, num(0));
        let first = setq(&heap, rest);
        let (requests, value) = run(&mut heap, first, &late);
        expected.extend(requests);
        let mut replies = early.clone();
        replies.extend(late);
        let first = setq(&heap, whole);
        let (requests, step) = run(&mut heap, first, &replies);
        assert_eq!(requests, expected);
        assert_eq!(step, value);
        assert_eq!(heap.cons_at(binding), stored);
    }
}

#[test]
fn setq_goes_on_with_the_rest_that_it_has_read() {
    let mut heap = Heap::new();
    let x = heap.make_symbol().as_lisp_obj();
    let y = heap.make_symbol().as_lisp_obj();
    let rest = list(&mut heap, &[y, num(2)]);
    let form = heap.cons(num(1), rest);
    let whole = heap.cons(x, form);
    match setq(&heap, whole) {
        Step::Call(request, frame) => {
            assert_eq!(request, Request::Eval { form: num(1) });
            // The value form takes the argument list apart.
            heap.set_cdr(form, nil());
            let step = resume(&mut heap, frame, num(10));
            let (requests, step) = run(&mut heap, step, &[nil(), num(20), nil()]);
            let first = setq(&heap, rest);
            let (late, value) = run(&mut heap, first, &[num(20), nil()]);
            assert_eq!(requests[0], Request::SetValue { sym: x, val: num(10) });
            assert_eq!(requests[1..], late[..]);
            assert_eq!(step, value);
        }
        other => panic!("{:?}", other),
    }
}

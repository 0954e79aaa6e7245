//! `let` and `let*`, one request at a time.
use lisp_eval::binding::{let_binding_value, letX, lisp_let, LetBinding};
use lisp_eval::errors::{signal, LispError};
use lisp_eval::heap::{Cons, Heap};
use lisp_eval::lists::assq;
use lisp_eval::machine::{Request, Step};
use lisp_eval::object::{
    LispCons, LispObject, LispSymbolRef, QCONSP, QINTERNAL_INTERPRETER_ENVIRONMENT, QLISTP,
};
use lisp_eval::resume::{can_resume, resume};
use lisp_eval::variables::make_var_non_special;

fn num(n: i64) -> LispObject {
    LispObject::Fixnum(n)
}

fn nil() -> LispObject {
    LispObject::nil()
}

fn list(heap: &mut Heap, items: &[LispObject]) -> LispObject {
    let mut rest = nil();
    for item in items.iter().rev() {
        rest = heap.cons(*item, rest);
    }
    rest
}

fn as_cell(obj: LispObject) -> LispCons {
    match obj {
        LispObject::Cons(id) => LispCons { id },
        _ => panic!("no cell: {:?}", obj),
    }
}

fn run(heap: &mut Heap, first: Step, replies: &[LispObject]) -> (Vec<Request>, Step) {
    let mut step = first;
    let mut requests = Vec::new();
    for reply in replies {
        match step {
            Step::Call(request, frame) => {
                requests.push(request);
                assert!(can_resume(heap, &frame, *reply));
                step = resume(heap, frame, *reply);
            }
            other => panic!("nothing was asked: {:?}", other),
        }
    }
    (requests, step)
}

fn asked(step: &Step) -> Request {
    match step {
        Step::Call(request, _) => *request,
        other => panic!("nothing was asked: {:?}", other),
    }
}

/// ((x 1) y (z)) 5 6
fn sample(heap: &mut Heap) -> (LispObject, LispObject, LispObject, LispObject) {
    let x = heap.make_symbol().as_lisp_obj();
    let y = heap.make_symbol().as_lisp_obj();
    let z = heap.make_symbol().as_lisp_obj();
    let with_form = list(heap, &[x, num(1)]);
    let without = list(heap, &[z]);
    let varlist = list(heap, &[with_form, y, without]);
    let args = list(heap, &[varlist, num(5), num(6)]);
    (args, x, y, z)
}

#[test]
fn binding_elements() {
    let mut heap = Heap::new();
    let a = heap.make_symbol().as_lisp_obj();
    let one = list(&mut heap, &[a, num(1)]);
    let bare = list(&mut heap, &[a]);
    let many = list(&mut heap, &[a, num(1), num(2)]);
    let dotted = heap.cons(a, num(3));
    assert_eq!(let_binding_value(&heap, a), Ok(LetBinding::Unset { var: a }));
    assert_eq!(let_binding_value(&heap, one), Ok(LetBinding::Form { var: a, form: num(1) }));
    assert_eq!(let_binding_value(&heap, bare), Ok(LetBinding::Form { var: a, form: nil() }));
    assert_eq!(let_binding_value(&heap, many), Err(LispError::LetBinding { binding: many }));
    assert_eq!(
        let_binding_value(&heap, num(4)),
        Err(LispError::WrongType { predicate: QCONSP, value: num(4) })
    );
    assert_eq!(
        let_binding_value(&heap, dotted),
        Err(LispError::WrongType { predicate: QCONSP, value: num(3) })
    );
}

#[test]
fn let_evaluates_all_values_first() {
    let mut heap = Heap::new();
    let (args, x, y, z) = sample(&mut heap);
    let first = lisp_let(&mut heap, as_cell(args), 4);
    let replies = [num(10), num(30), nil(), nil(), nil(), num(50), num(60), num(60)];
    let (requests, step) = run(&mut heap, first, &replies);
    assert_eq!(
        requests,
        vec![
            Request::Eval { form: num(1) },
            Request::Eval { form: nil() },
            Request::Specbind { sym: x, val: num(10) },
            Request::Specbind { sym: y, val: nil() },
            Request::Specbind { sym: z, val: num(30) },
            Request::Eval { form: num(5) },
            Request::Eval { form: num(6) },
            Request::UnbindTo { count: 4, val: num(60) },
        ]
    );
    assert_eq!(step, Step::Done(num(60)));
}

#[test]
fn let_star_binds_as_it_goes() {
    let mut heap = Heap::new();
    let (args, x, y, z) = sample(&mut heap);
    let first = letX(&heap, as_cell(args), 4);
    let replies = [
        nil(),
        num(10),
        nil(),
        nil(),
        nil(),
        nil(),
        num(30),
        nil(),
        num(50),
        num(60),
        num(61),
    ];
    let (requests, step) = run(&mut heap, first, &replies);
    assert_eq!(
        requests,
        vec![
            Request::MaybeQuit,
            Request::Eval { form: num(1) },
            Request::Specbind { sym: x, val: num(10) },
            Request::MaybeQuit,
            Request::Specbind { sym: y, val: nil() },
            Request::MaybeQuit,
            Request::Eval { form: nil() },
            Request::Specbind { sym: z, val: num(30) },
            Request::Eval { form: num(5) },
            Request::Eval { form: num(6) },
            Request::UnbindTo { count: 4, val: num(60) },
        ]
    );
    assert_eq!(step, Step::Done(num(61)));
}

#[test]
fn let_without_variables_evaluates_its_body() {
    let mut heap = Heap::new();
    let args = list(&mut heap, &[nil()]);
    let first = lisp_let(&mut heap, as_cell(args), 0);
    assert_eq!(asked(&first), Request::UnbindTo { count: 0, val: nil() });
    let (_, step) = run(&mut heap, first, &[nil()]);
    assert_eq!(step, Step::Done(nil()));
    let first = letX(&heap, as_cell(args), 0);
    assert_eq!(asked(&first), Request::UnbindTo { count: 0, val: nil() });
}

#[test]
fn let_gathers_lexical_bindings() {
    let mut heap = Heap::new();
    let (args, x, y, z) = sample(&mut heap);
    let w = heap.make_symbol().as_lisp_obj();
    let outer = heap.cons(w, num(7));
    let env = list(&mut heap, &[outer]);
    heap.set_lexenv(env);
    let first = lisp_let(&mut heap, as_cell(args), 2);
    let (requests, step) = run(&mut heap, first, &[num(10), num(30)]);
    assert_eq!(requests, vec![Request::Eval { form: num(1) }, Request::Eval { form: nil() }]);
    assert_eq!(heap.lexenv(), env);
    let newenv = match asked(&step) {
        Request::Specbind { sym, val } => {
            assert_eq!(sym, LispObject::Symbol(QINTERNAL_INTERPRETER_ENVIRONMENT));
            val
        }
        other => panic!("{:?}", other),
    };
    for (var, val) in [(x, num(10)), (y, nil()), (z, num(30)), (w, num(7))] {
        let pair = assq(&heap, var, newenv).unwrap();
        assert_eq!(heap.cons_at(pair), Some(Cons { car: var, cdr: val }));
    }
    let (requests, step) = run(&mut heap, step, &[nil(), num(50), num(60), num(60)]);
    assert_eq!(requests[3], Request::UnbindTo { count: 2, val: num(60) });
    assert_eq!(step, Step::Done(num(60)));
}

#[test]
fn let_binds_a_repeated_variable_to_the_last_value() {
    let mut heap = Heap::new();
    let x = heap.make_symbol().as_lisp_obj();
    let a = list(&mut heap, &[x, num(1)]);
    let b = list(&mut heap, &[x, num(2)]);
    let varlist = list(&mut heap, &[a, b]);
    let args = list(&mut heap, &[varlist]);
    let env = list(&mut heap, &[LispObject::t()]);
    heap.set_lexenv(env);
    let first = lisp_let(&mut heap, as_cell(args), 0);
    let (_, step) = run(&mut heap, first, &[num(10), num(20)]);
    match asked(&step) {
        Request::Specbind { val, .. } => {
            let pair = assq(&heap, x, val).unwrap();
            assert_eq!(heap.cons_at(pair), Some(Cons { car: x, cdr: num(20) }));
        }
        other => panic!("{:?}", other),
    }
}

#[test]
fn special_variables_are_bound_dynamically() {
    let mut heap = Heap::new();
    let symbol = heap.make_symbol();
    let x = symbol.as_lisp_obj();
    heap.set_declared_special(symbol.id, true);
    let env = list(&mut heap, &[LispObject::t()]);
    heap.set_lexenv(env);
    let a = list(&mut heap, &[x, num(1)]);
    let varlist = list(&mut heap, &[a]);
    let args = list(&mut heap, &[varlist]);
    let first = lisp_let(&mut heap, as_cell(args), 0);
    let (_, step) = run(&mut heap, first, &[num(10)]);
    assert_eq!(asked(&step), Request::Specbind { sym: x, val: num(10) });
    let first = letX(&heap, as_cell(args), 0);
    let (_, step) = run(&mut heap, first, &[nil(), num(10)]);
    assert_eq!(asked(&step), Request::Specbind { sym: x, val: num(10) });
    assert!(make_var_non_special(&mut heap, LispSymbolRef { id: symbol.id }));
    let first = letX(&heap, as_cell(args), 0);
    let (_, step) = run(&mut heap, first, &[nil(), num(10)]);
    match asked(&step) {
        Request::Specbind { sym, .. } => {
            assert_eq!(sym, LispObject::Symbol(QINTERNAL_INTERPRETER_ENVIRONMENT))
        }
        other => panic!("{:?}", other),
    }
}

#[test]
fn variables_named_in_the_environment_are_bound_dynamically() {
    let mut heap = Heap::new();
    let x = heap.make_symbol().as_lisp_obj();
    let env = list(&mut heap, &[x, LispObject::t()]);
    heap.set_lexenv(env);
    let varlist = list(&mut heap, &[x]);
    let args = list(&mut heap, &[varlist]);
    let first = lisp_let(&mut heap, as_cell(args), 0);
    assert_eq!(asked(&first), Request::Specbind { sym: x, val: nil() });
}

#[test]
fn let_star_saves_the_environment_once() {
    let mut heap = Heap::new();
    let x = heap.make_symbol().as_lisp_obj();
    let y = heap.make_symbol().as_lisp_obj();
    let env = list(&mut heap, &[LispObject::t()]);
    heap.set_lexenv(env);
    let a = list(&mut heap, &[x, num(1)]);
    let b = list(&mut heap, &[y, num(2)]);
    let varlist = list(&mut heap, &[a, b]);
    let args = list(&mut heap, &[varlist, num(5)]);
    let first = letX(&heap, as_cell(args), 0);
    let (_, step) = run(&mut heap, first, &[nil(), num(10)]);
    let inner = match asked(&step) {
        Request::Specbind { sym, val } => {
            assert_eq!(sym, LispObject::Symbol(QINTERNAL_INTERPRETER_ENVIRONMENT));
            val
        }
        other => panic!("{:?}", other),
    };
    // The core puts the new environment in force.
    heap.set_lexenv(inner);
    let (requests, step) = run(&mut heap, step, &[nil(), nil(), num(20)]);
    assert_eq!(requests[1], Request::MaybeQuit);
    assert_eq!(requests[2], Request::Eval { form: num(2) });
    assert_eq!(asked(&step), Request::Eval { form: num(5) });
    let pair = assq(&heap, y, heap.lexenv()).unwrap();
    assert_eq!(heap.cons_at(pair), Some(Cons { car: y, cdr: num(20) }));
    let pair = assq(&heap, x, heap.lexenv()).unwrap();
    assert_eq!(heap.cons_at(pair), Some(Cons { car: x, cdr: num(10) }));
}

#[test]
fn let_refuses_bad_variable_lists() {
    let mut heap = Heap::new();
    let args = list(&mut heap, &[num(3)]);
    let wrong = LispError::WrongType { predicate: QLISTP, value: num(3) };
    assert_eq!(lisp_let(&mut heap, as_cell(args), 0), Step::Fail(wrong));
    assert_eq!(letX(&heap, as_cell(args), 0), Step::Fail(wrong));
    let x = heap.make_symbol().as_lisp_obj();
    let ring = heap.cons(x, nil());
    heap.set_cdr(ring, ring);
    let args = list(&mut heap, &[ring]);
    let circular = LispError::CircularList { list: ring };
    assert_eq!(lisp_let(&mut heap, as_cell(args), 0), Step::Fail(circular));
    assert_eq!(letX(&heap, as_cell(args), 0), Step::Fail(circular));
}

#[test]
fn let_refuses_several_value_forms() {
    let mut heap = Heap::new();
    let x = heap.make_symbol().as_lisp_obj();
    let many = list(&mut heap, &[x, num(1), num(2)]);
    let varlist = list(&mut heap, &[many]);
    let args = list(&mut heap, &[varlist]);
    let error = LispError::LetBinding { binding: many };
    assert_eq!(lisp_let(&mut heap, as_cell(args), 0), Step::Fail(error));
    let first = letX(&heap, as_cell(args), 0);
    let (_, step) = run(&mut heap, first, &[nil()]);
    assert_eq!(step, Step::Fail(error));
    let raised = signal(&mut heap, error);
    let cell = heap.cons_at(raised.data).unwrap();
    assert_eq!(heap.string_at(cell.car), Some("`let' bindings can have only one value-form"));
    assert_eq!(cell.cdr, many);
}

//! Quoting functions and expanding macros, one request at a time.
use lisp_eval::errors::LispError;
use lisp_eval::functions::{apply1, function, macroexpand};
use lisp_eval::heap::{Cons, Heap};
use lisp_eval::machine::{Request, Step};
use lisp_eval::object::{
    LispObject, QCDOCUMENTATION, QCLOSURE, QCONSP, QFUNCTION, QLAMBDA, QLISTP, QMACRO, QSTRINGP,
};
use lisp_eval::resume::{can_resume, resume};

fn num(n: i64) -> LispObject {
    LispObject::Fixnum(n)
}

fn nil() -> LispObject {
    LispObject::nil()
}

fn sym(id: usize) -> LispObject {
    LispObject::Symbol(id)
}

fn list(heap: &mut Heap, items: &[LispObject]) -> LispObject {
    let mut rest = nil();
    for item in items.iter().rev() {
        rest = heap.cons(*item, rest);
    }
    rest
}

fn elements(heap: &Heap, obj: LispObject) -> Vec<LispObject> {
    let mut rest = obj;
    let mut items = Vec::new();
    while let Some(cell) = heap.cons_at(rest) {
        items.push(cell.car);
        rest = cell.cdr;
    }
    items
}

fn run(heap: &mut Heap, first: Step, replies: &[LispObject]) -> (Vec<Request>, Step) {
    let mut step = first;
    let mut requests = Vec::new();
    for reply in replies {
        match step {
            Step::Call(request, frame) => {
                requests.push(request);
                assert!(can_resume(heap, &frame, *reply));
                step = resume(heap, frame, *reply);
            }
            other => panic!("nothing was asked: {:?}", other),
        }
    }
    (requests, step)
}

fn value(step: Step) -> LispObject {
    match step {
        Step::Done(value) => value,
        other => panic!("no value: {:?}", other),
    }
}

#[test]
fn function_quotes_with_dynamic_binding() {
    let mut heap = Heap::new();
    let lambda = list(&mut heap, &[sym(QLAMBDA), nil(), num(1)]);
    let args = list(&mut heap, &[lambda]);
    let before = heap.cons_count();
    assert_eq!(function(&mut heap, args), Step::Done(lambda));
    assert_eq!(heap.cons_count(), before);
}

#[test]
fn function_makes_a_closure() {
    let mut heap = Heap::new();
    let lambda = list(&mut heap, &[sym(QLAMBDA), nil(), num(1)]);
    let args = list(&mut heap, &[lambda]);
    let env = list(&mut heap, &[LispObject::t()]);
    heap.set_lexenv(env);
    let closure = value(function(&mut heap, args));
    assert_eq!(elements(&heap, closure), vec![sym(QCLOSURE), env, nil(), num(1)]);
    let captured = heap.cons_at(closure).unwrap().cdr;
    let shared = heap.cons_at(lambda).unwrap().cdr;
    assert_eq!(heap.cons_at(captured), Some(Cons { car: env, cdr: shared }));
}

#[test]
fn function_quotes_what_is_no_lambda() {
    let mut heap = Heap::new();
    let env = list(&mut heap, &[LispObject::t()]);
    heap.set_lexenv(env);
    let f = heap.make_symbol().as_lisp_obj();
    let args = list(&mut heap, &[f]);
    assert_eq!(function(&mut heap, args), Step::Done(f));
    let other = list(&mut heap, &[f, num(1)]);
    let args = list(&mut heap, &[other]);
    assert_eq!(function(&mut heap, args), Step::Done(other));
}

#[test]
fn function_builds_the_documentation() {
    let mut heap = Heap::new();
    let doc = list(&mut heap, &[sym(QCDOCUMENTATION), num(7)]);
    let lambda = list(&mut heap, &[sym(QLAMBDA), nil(), doc, num(1)]);
    let args = list(&mut heap, &[lambda]);
    let env = list(&mut heap, &[LispObject::t()]);
    heap.set_lexenv(env);
    let text = heap.make_string("Return 1.");
    let first = function(&mut heap, args);
    let (requests, step) = run(&mut heap, first, &[text]);
    assert_eq!(requests, vec![Request::Eval { form: num(7) }]);
    let closure = value(step);
    assert_eq!(elements(&heap, closure), vec![sym(QCLOSURE), env, nil(), text, num(1)]);
    assert_eq!(elements(&heap, lambda), vec![sym(QLAMBDA), nil(), doc, num(1)]);
}

#[test]
fn function_refuses_other_documentation() {
    let mut heap = Heap::new();
    let doc = list(&mut heap, &[sym(QCDOCUMENTATION), num(7)]);
    let lambda = list(&mut heap, &[sym(QLAMBDA), nil(), doc]);
    let args = list(&mut heap, &[lambda]);
    let env = list(&mut heap, &[LispObject::t()]);
    heap.set_lexenv(env);
    let first = function(&mut heap, args);
    let (_, step) = run(&mut heap, first, &[num(70)]);
    assert_eq!(step, Step::Fail(LispError::WrongType { predicate: QSTRINGP, value: num(70) }));
}

#[test]
fn function_needs_the_lambda_expression_to_stay() {
    let mut heap = Heap::new();
    let doc = list(&mut heap, &[sym(QCDOCUMENTATION), num(7)]);
    let lambda = list(&mut heap, &[sym(QLAMBDA), nil(), doc]);
    let args = list(&mut heap, &[lambda]);
    let env = list(&mut heap, &[LispObject::t()]);
    heap.set_lexenv(env);
    let text = heap.make_string("");
    match function(&mut heap, args) {
        Step::Call(_, frame) => {
            let arguments = heap.cons_at(lambda).unwrap().cdr;
            heap.set_cdr(arguments, nil());
            assert!(!can_resume(&heap, &frame, text));
            assert!(can_resume(&heap, &frame, num(1)));
        }
        other => panic!("{:?}", other),
    }
}

#[test]
fn function_counts_its_arguments() {
    let mut heap = Heap::new();
    let args = list(&mut heap, &[num(1), num(2), num(3)]);
    assert_eq!(
        function(&mut heap, args),
        Step::Fail(LispError::WrongNumberOfArguments { function: QFUNCTION, count: 3 })
    );
    assert_eq!(
        function(&mut heap, nil()),
        Step::Fail(LispError::WrongType { predicate: QCONSP, value: nil() })
    );
    let dotted = heap.cons(num(1), num(2));
    assert_eq!(
        function(&mut heap, dotted),
        Step::Fail(LispError::WrongType { predicate: QLISTP, value: dotted })
    );
    let ring = heap.cons(num(1), nil());
    heap.set_cdr(ring, ring);
    assert_eq!(
        function(&mut heap, ring),
        Step::Fail(LispError::CircularList { list: ring })
    );
}

#[test]
fn apply1_calls_with_and_without_arguments() {
    let mut heap = Heap::new();
    let f = heap.make_symbol().as_lisp_obj();
    let first = apply1(f, nil());
    let (requests, step) = run(&mut heap, first, &[num(5)]);
    assert_eq!(requests, vec![Request::Funcall { func: f }]);
    assert_eq!(step, Step::Done(num(5)));
    let arg = list(&mut heap, &[num(1)]);
    let first = apply1(f, arg);
    let (requests, step) = run(&mut heap, first, &[num(6)]);
    assert_eq!(requests, vec![Request::Apply { func: f, arg }]);
    assert_eq!(step, Step::Done(num(6)));
}

#[test]
fn macroexpand_returns_what_is_no_call() {
    let heap = Heap::new();
    assert_eq!(macroexpand(&heap, num(4), nil()), Step::Done(num(4)));
    assert_eq!(macroexpand(&heap, nil(), nil()), Step::Done(nil()));
}

#[test]
fn macroexpand_returns_a_function_call() {
    let mut heap = Heap::new();
    let f = heap.make_symbol().as_lisp_obj();
    let form = list(&mut heap, &[f, num(1)]);
    let first = macroexpand(&heap, form, nil());
    let (requests, step) = run(&mut heap, first, &[nil(), nil()]);
    assert_eq!(
        requests,
        vec![
            Request::MaybeQuit,
            Request::AutoloadDoLoad { def: nil(), name: f, macro_only: sym(QMACRO) },
        ]
    );
    assert_eq!(step, Step::Done(form));
}

#[test]
fn macroexpand_expands_until_no_macro_is_left() {
    let mut heap = Heap::new();
    let symbol = heap.make_symbol();
    let f = symbol.as_lisp_obj();
    let expander = heap.make_symbol().as_lisp_obj();
    let def = heap.cons(sym(QMACRO), expander);
    heap.set_function(symbol.id, def);
    let body = list(&mut heap, &[num(1)]);
    let form = heap.cons(f, body);
    let inner = list(&mut heap, &[f]);
    let first = macroexpand(&heap, form, nil());
    let replies = [nil(), def, inner, nil(), def, num(3)];
    let (requests, step) = run(&mut heap, first, &replies);
    assert_eq!(
        requests,
        vec![
            Request::MaybeQuit,
            Request::AutoloadDoLoad { def, name: f, macro_only: sym(QMACRO) },
            Request::Apply { func: expander, arg: body },
            Request::MaybeQuit,
            Request::AutoloadDoLoad { def, name: f, macro_only: sym(QMACRO) },
            Request::Funcall { func: expander },
        ]
    );
    assert_eq!(step, Step::Done(num(3)));
}

#[test]
fn macroexpand_stops_at_a_macro_that_returns_its_call() {
    let mut heap = Heap::new();
    let symbol = heap.make_symbol();
    let def = heap.cons(sym(QMACRO), num(8));
    heap.set_function(symbol.id, def);
    let form = list(&mut heap, &[symbol.as_lisp_obj()]);
    let first = macroexpand(&heap, form, nil());
    let (_, step) = run(&mut heap, first, &[nil(), def, form]);
    assert_eq!(step, Step::Done(form));
}

#[test]
fn macroexpand_follows_aliases() {
    let mut heap = Heap::new();
    let alias = heap.make_symbol();
    let symbol = heap.make_symbol();
    let f = symbol.as_lisp_obj();
    heap.set_function(alias.id, f);
    let def = list(&mut heap, &[sym(QLAMBDA), nil()]);
    heap.set_function(symbol.id, def);
    let form = list(&mut heap, &[alias.as_lisp_obj()]);
    let first = macroexpand(&heap, form, nil());
    let (requests, step) = run(&mut heap, first, &[nil(), nil(), def]);
    assert_eq!(
        requests,
        vec![
            Request::MaybeQuit,
            Request::MaybeQuit,
            Request::AutoloadDoLoad { def, name: f, macro_only: sym(QMACRO) },
        ]
    );
    assert_eq!(step, Step::Done(form));
}

#[test]
fn macroexpand_lets_the_environment_shadow() {
    let mut heap = Heap::new();
    let symbol = heap.make_symbol();
    let f = symbol.as_lisp_obj();
    let def = heap.cons(sym(QMACRO), num(8));
    heap.set_function(symbol.id, def);
    let local = heap.cons(f, num(9));
    let environment = list(&mut heap, &[local]);
    let form = list(&mut heap, &[f]);
    let first = macroexpand(&heap, form, environment);
    let (requests, step) = run(&mut heap, first, &[nil(), num(2)]);
    assert_eq!(requests, vec![Request::MaybeQuit, Request::Funcall { func: num(9) }]);
    assert_eq!(step, Step::Done(num(2)));
    let none = heap.cons(f, nil());
    let environment = list(&mut heap, &[none]);
    let first = macroexpand(&heap, form, environment);
    let (_, step) = run(&mut heap, first, &[nil()]);
    assert_eq!(step, Step::Done(form));
}

#[test]
fn macroexpand_asks_for_a_head_that_is_no_symbol() {
    let mut heap = Heap::new();
    let head = list(&mut heap, &[sym(QLAMBDA), nil()]);
    let form = list(&mut heap, &[head]);
    let first = macroexpand(&heap, form, nil());
    let (requests, step) = run(&mut heap, first, &[head]);
    assert_eq!(
        requests,
        vec![Request::AutoloadDoLoad { def: head, name: head, macro_only: sym(QMACRO) }]
    );
    assert_eq!(step, Step::Done(form));
}

#[test]
fn macroexpand_refuses_a_broken_environment() {
    let mut heap = Heap::new();
    let f = heap.make_symbol().as_lisp_obj();
    let form = list(&mut heap, &[f]);
    let first = macroexpand(&heap, form, num(5));
    let (_, step) = run(&mut heap, first, &[nil()]);
    assert_eq!(step, Step::Fail(LispError::WrongType { predicate: QLISTP, value: num(5) }));
}

#[test]
fn macroexpand_of_an_expansion_returns_it() {
    let mut heap = Heap::new();
    let symbol = heap.make_symbol();
    let def = heap.cons(sym(QMACRO), num(8));
    heap.set_function(symbol.id, def);
    let f = heap.make_symbol().as_lisp_obj();
    let form = list(&mut heap, &[symbol.as_lisp_obj()]);
    // An expansion that is a call of a function, and one that is its own expansion.
    let call = list(&mut heap, &[f]);
    let own = list(&mut heap, &[symbol.as_lisp_obj()]);
    for (expansion, again) in [(call, vec![nil(), nil()]), (own, vec![nil(), def, own])] {
        let mut replies = vec![nil(), def, expansion];
        replies.extend(again.clone());
        let first = macroexpand(&heap, form, nil());
        let (_, step) = run(&mut heap, first, &replies);
        assert_eq!(step, Step::Done(expansion));
        let first = macroexpand(&heap, expansion, nil());
        let (_, step) = run(&mut heap, first, &again);
        assert_eq!(step, Step::Done(expansion));
    }
}

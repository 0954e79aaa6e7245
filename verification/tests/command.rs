//! Commands and autoloads.
use lisp_eval::command::{autoload, command_definition, commandp};
use lisp_eval::errors::LispError;
use lisp_eval::functions::function;
use lisp_eval::heap::{Heap, Vectorlike};
use lisp_eval::machine::{Request, Step};
use lisp_eval::object::{
    LispObject, LispStringRef, QAUTOLOAD, QINTERACTIVE, QINTERACTIVE_FORM, QLAMBDA, QLISTP,
};
use lisp_eval::resume::{can_resume, resume};

fn num(n: i64) -> LispObject {
    LispObject::Fixnum(n)
}

fn nil() -> LispObject {
    LispObject::nil()
}

fn t() -> LispObject {
    LispObject::t()
}

fn sym(id: usize) -> LispObject {
    LispObject::Symbol(id)
}

fn list(heap: &mut Heap, items: &[LispObject]) -> LispObject {
    let mut rest = nil();
    for item in items.iter().rev() {
        rest = heap.cons(*item, rest);
    }
    rest
}

fn elements(heap: &Heap, obj: LispObject) -> Vec<LispObject> {
    let mut rest = obj;
    let mut items = Vec::new();
    while let Some(cell) = heap.cons_at(rest) {
        items.push(cell.car);
        rest = cell.cdr;
    }
    items
}

fn run(heap: &mut Heap, first: Step, replies: &[LispObject]) -> (Vec<Request>, Step) {
    let mut step = first;
    let mut requests = Vec::new();
    for reply in replies {
        match step {
            Step::Call(request, frame) => {
                requests.push(request);
                assert!(can_resume(heap, &frame, *reply));
                step = resume(heap, frame, *reply);
            }
            other => panic!("nothing was asked: {:?}", other),
        }
    }
    (requests, step)
}

/// The answer of `commandp` to a function that is no symbol.
fn commandp_of(heap: &mut Heap, fun: LispObject, interactively: bool) -> LispObject {
    let first = commandp(fun, interactively);
    let (requests, step) = run(heap, first, &[fun]);
    assert_eq!(requests, vec![Request::IndirectFunction { obj: fun }]);
    match step {
        Step::Done(value) => value,
        other => panic!("{:?}", other),
    }
}

fn text(heap: &mut Heap, s: &str) -> LispStringRef {
    match heap.make_string(s) {
        LispObject::Str(id) => LispStringRef { id },
        other => panic!("{:?}", other),
    }
}

/// The definition that `autoload` asks to be recorded.
fn recorded(step: &Step) -> (LispObject, LispObject) {
    match step {
        Step::Call(Request::Defalias { sym, def, doc }, _) => {
            assert_eq!(*doc, nil());
            (*sym, *def)
        }
        other => panic!("{:?}", other),
    }
}

#[test]
fn commandp_of_an_undefined_function_is_nil() {
    let mut heap = Heap::new();
    assert_eq!(commandp_of(&mut heap, nil(), false), nil());
    assert_eq!(commandp_of(&mut heap, num(3), false), nil());
    assert_eq!(commandp_of(&mut heap, LispObject::Other(0), false), nil());
}

#[test]
fn commandp_of_keyboard_macros() {
    let mut heap = Heap::new();
    let string = heap.make_string("keys");
    let vector = heap.make_vectorlike(Vectorlike::Vector);
    for fun in [string, vector] {
        assert_eq!(commandp_of(&mut heap, fun, false), t());
        assert_eq!(commandp_of(&mut heap, fun, true), nil());
    }
}

#[test]
fn commandp_of_built_in_functions() {
    let mut heap = Heap::new();
    let plain = heap.make_vectorlike(Vectorlike::Subr { interactive: false });
    let command = heap.make_vectorlike(Vectorlike::Subr { interactive: true });
    assert_eq!(commandp_of(&mut heap, plain, false), nil());
    assert_eq!(commandp_of(&mut heap, command, true), t());
}

#[test]
fn commandp_of_byte_code() {
    let mut heap = Heap::new();
    let short = heap.make_vectorlike(Vectorlike::Pseudovector { compiled: true, size: 5 });
    let long = heap.make_vectorlike(Vectorlike::Pseudovector { compiled: true, size: 6 });
    let other = heap.make_vectorlike(Vectorlike::Pseudovector { compiled: false, size: 6 });
    assert_eq!(commandp_of(&mut heap, short, false), nil());
    assert_eq!(commandp_of(&mut heap, long, false), t());
    assert_eq!(commandp_of(&mut heap, other, false), nil());
}

#[test]
fn commandp_of_lambda_expressions() {
    let mut heap = Heap::new();
    let call = list(&mut heap, &[sym(QINTERACTIVE)]);
    let command = list(&mut heap, &[sym(QLAMBDA), nil(), num(1), call]);
    let plain = list(&mut heap, &[sym(QLAMBDA), nil(), num(1)]);
    assert_eq!(commandp_of(&mut heap, command, true), t());
    assert_eq!(commandp_of(&mut heap, plain, true), nil());
    let unknown = list(&mut heap, &[num(1), call]);
    assert_eq!(commandp_of(&mut heap, unknown, true), nil());
}

#[test]
fn commandp_of_a_closure_is_that_of_its_lambda() {
    let mut heap = Heap::new();
    let env = list(&mut heap, &[t()]);
    heap.set_lexenv(env);
    let call = list(&mut heap, &[sym(QINTERACTIVE)]);
    for (body, expected) in [(call, t()), (num(1), nil())] {
        let lambda = list(&mut heap, &[sym(QLAMBDA), nil(), body]);
        let args = list(&mut heap, &[lambda]);
        let closure = match function(&mut heap, args) {
            Step::Done(closure) => closure,
            other => panic!("{:?}", other),
        };
        assert_eq!(commandp_of(&mut heap, lambda, true), expected);
        assert_eq!(commandp_of(&mut heap, closure, true), expected);
    }
}

#[test]
fn commandp_refuses_a_broken_function() {
    let mut heap = Heap::new();
    let broken = heap.cons(sym(QLAMBDA), num(2));
    assert_eq!(
        command_definition(&heap, broken, false, false),
        Err(LispError::WrongType { predicate: QLISTP, value: num(2) })
    );
}

fn property_of(symbol: LispObject) -> Request {
    Request::Get { sym: symbol, prop: sym(QINTERACTIVE_FORM) }
}

#[test]
fn commandp_reads_the_property_of_a_symbol() {
    let mut heap = Heap::new();
    let symbol = heap.make_symbol();
    let name = symbol.as_lisp_obj();
    let plain = list(&mut heap, &[sym(QLAMBDA), nil(), nil()]);
    heap.set_function(symbol.id, plain);
    let form = list(&mut heap, &[sym(QINTERACTIVE)]);
    for (property, expected) in [(form, t()), (nil(), nil())] {
        let first = commandp(name, false);
        let (requests, step) = run(&mut heap, first, &[plain, property]);
        assert_eq!(
            requests,
            vec![Request::IndirectFunction { obj: name }, property_of(name)]
        );
        assert_eq!(step, Step::Done(expected));
    }
}

#[test]
fn commandp_reads_the_properties_of_a_chain() {
    let mut heap = Heap::new();
    let alias = heap.make_symbol();
    let symbol = heap.make_symbol();
    let plain = heap.make_vectorlike(Vectorlike::Subr { interactive: false });
    heap.set_function(alias.id, symbol.as_lisp_obj());
    heap.set_function(symbol.id, plain);
    for (properties, expected) in
        [([nil(), nil()], nil()), ([t(), nil()], t()), ([nil(), t()], t())]
    {
        let first = commandp(alias.as_lisp_obj(), true);
        let (requests, step) = run(&mut heap, first, &[plain, properties[0], properties[1]]);
        assert_eq!(
            requests,
            vec![
                Request::IndirectFunction { obj: alias.as_lisp_obj() },
                property_of(alias.as_lisp_obj()),
                property_of(symbol.as_lisp_obj()),
            ]
        );
        assert_eq!(step, Step::Done(expected));
    }
}

#[test]
fn commandp_of_a_symbol_is_that_of_its_command() {
    let mut heap = Heap::new();
    let symbol = heap.make_symbol();
    let command = heap.make_vectorlike(Vectorlike::Subr { interactive: true });
    heap.set_function(symbol.id, command);
    assert_eq!(commandp_of(&mut heap, command, true), t());
    for property in [nil(), t()] {
        let first = commandp(symbol.as_lisp_obj(), true);
        let (_, step) = run(&mut heap, first, &[command, property]);
        assert_eq!(step, Step::Done(t()));
    }
}

#[test]
fn commandp_does_not_count_the_property_of_a_keyboard_macro() {
    let mut heap = Heap::new();
    let symbol = heap.make_symbol();
    let keys = heap.make_string("keys");
    heap.set_function(symbol.id, keys);
    let first = commandp(symbol.as_lisp_obj(), true);
    let (_, step) = run(&mut heap, first, &[keys, t()]);
    assert_eq!(step, Step::Done(nil()));
}

#[test]
fn commandp_of_a_symbol_without_a_definition_is_nil() {
    let mut heap = Heap::new();
    let symbol = heap.make_symbol();
    let first = commandp(symbol.as_lisp_obj(), false);
    let (requests, step) = run(&mut heap, first, &[nil()]);
    assert_eq!(requests.len(), 1);
    assert_eq!(step, Step::Done(nil()));
}

#[test]
fn autoload_records_a_definition() {
    let mut heap = Heap::new();
    let symbol = heap.make_symbol();
    let file = text(&mut heap, "mail");
    let doc = heap.make_string("Send mail.");
    let step = autoload(&mut heap, symbol, file, doc, t(), nil());
    let (name, def) = recorded(&step);
    assert_eq!(name, symbol.as_lisp_obj());
    assert_eq!(
        elements(&heap, def),
        vec![sym(QAUTOLOAD), file.as_lisp_obj(), doc, t(), nil()]
    );
    let (_, step) = run(&mut heap, step, &[name]);
    assert_eq!(step, Step::Done(name));
    assert_eq!(commandp_of(&mut heap, def, true), t());
    heap.set_function(symbol.id, def);
    let again = autoload(&mut heap, symbol, file, nil(), nil(), nil());
    let (_, def) = recorded(&again);
    assert_eq!(commandp_of(&mut heap, def, true), nil());
}

#[test]
fn autoload_keeps_another_definition() {
    let mut heap = Heap::new();
    let symbol = heap.make_symbol();
    let lambda = list(&mut heap, &[sym(QLAMBDA), nil()]);
    heap.set_function(symbol.id, lambda);
    let file = text(&mut heap, "mail");
    let before = heap.cons_count();
    assert_eq!(autoload(&mut heap, symbol, file, nil(), nil(), nil()), Step::Done(nil()));
    assert_eq!(heap.cons_count(), before);
    assert_eq!(heap.function(symbol.id), lambda);
}

#[test]
fn autoload_numbers_the_documentation_of_a_dump() {
    let mut heap = Heap::new();
    let a = heap.make_symbol();
    let b = heap.make_symbol();
    let file = text(&mut heap, "mail");
    let step = autoload(&mut heap, a, file, num(0), nil(), nil());
    let (_, def) = recorded(&step);
    assert_eq!(elements(&heap, def)[2], num(0));
    heap.set_purify_flag(t());
    let step = autoload(&mut heap, a, file, num(0), nil(), nil());
    let (_, def) = recorded(&step);
    let of_a = elements(&heap, def)[2];
    let step = autoload(&mut heap, b, file, num(0), nil(), nil());
    let (_, def) = recorded(&step);
    let of_b = elements(&heap, def)[2];
    assert_eq!(of_a, num(a.id as i64));
    assert_ne!(of_a, of_b);
    let step = autoload(&mut heap, b, file, num(3), nil(), nil());
    let (_, def) = recorded(&step);
    assert_eq!(elements(&heap, def)[2], num(3));
}

#[test]
fn commandp_for_interactive_calls_differs_for_keyboard_macros_alone() {
    let mut heap = Heap::new();
    let string = heap.make_string("keys");
    let vector = heap.make_vectorlike(Vectorlike::Vector);
    let subr = heap.make_vectorlike(Vectorlike::Subr { interactive: true });
    let code = heap.make_vectorlike(Vectorlike::Pseudovector { compiled: true, size: 6 });
    let call = list(&mut heap, &[sym(QINTERACTIVE)]);
    let command = list(&mut heap, &[sym(QLAMBDA), nil(), call]);
    let plain = list(&mut heap, &[sym(QLAMBDA), nil()]);
    for fun in [string, vector, subr, code, command, plain, num(1), nil()] {
        let restricted = commandp_of(&mut heap, fun, true);
        let free = commandp_of(&mut heap, fun, false);
        if restricted == t() {
            assert_eq!(free, t());
        }
        assert_eq!(restricted != free, fun == string || fun == vector);
    }
}

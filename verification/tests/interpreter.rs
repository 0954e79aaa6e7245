//! Whole programs, run on a small interpreter core.
use lisp_eval::binding::{letX, lisp_let};
use lisp_eval::control::{and, cond, lisp_if, lisp_while, or, prog1, prog2, progn};
use lisp_eval::errors::LispError;
use lisp_eval::functions::{function, macroexpand};
use lisp_eval::heap::Heap;
use lisp_eval::lists::assq;
use lisp_eval::machine::{Request, Step};
use lisp_eval::object::{
    LispCons, LispObject, QAUTOLOAD, QCLOSURE, QINTERNAL_INTERPRETER_ENVIRONMENT, QLAMBDA, QMACRO,
    QNIL, QT, STATIC_SYMBOLS,
};
use lisp_eval::resume::{can_resume, resume};
use lisp_eval::variables::{defconst, setq};

struct Core {
    heap: Heap,
    names: Vec<String>,
    values: Vec<LispObject>,
    specpdl: Vec<(usize, LispObject)>,
}

fn num(n: i64) -> LispObject {
    LispObject::Fixnum(n)
}

fn nil() -> LispObject {
    LispObject::nil()
}

impl Core {
    fn new() -> Core {
        let heap = Heap::new();
        let mut names: Vec<String> = (0..STATIC_SYMBOLS).map(|i| format!("#{}", i)).collect();
        names[QNIL] = "nil".to_string();
        names[QT] = "t".to_string();
        names[QLAMBDA] = "lambda".to_string();
        names[QCLOSURE] = "closure".to_string();
        names[QMACRO] = "macro".to_string();
        names[QAUTOLOAD] = "autoload".to_string();
        let values = vec![nil(); STATIC_SYMBOLS];
        Core { heap, names, values, specpdl: Vec::new() }
    }

    fn lexical() -> Core {
        let mut core = Core::new();
        let env = core.heap.cons(LispObject::t(), nil());
        core.heap.set_lexenv(env);
        core
    }

    fn intern(&mut self, name: &str) -> LispObject {
        match self.names.iter().position(|n| n == name) {
            Some(id) => LispObject::Symbol(id),
            None => {
                self.names.push(name.to_string());
                self.values.push(nil());
                self.heap.make_symbol().as_lisp_obj()
            }
        }
    }

    fn read(&mut self, text: &str) -> LispObject {
        let spaced = text.replace('(', " ( ").replace(')', " ) ");
        let tokens: Vec<&str> = spaced.split_whitespace().collect();
        let mut at = 0;
        self.read_form(&tokens, &mut at)
    }

    fn read_form(&mut self, tokens: &[&str], at: &mut usize) -> LispObject {
        let token = tokens[*at];
        *at += 1;
        if token == "(" {
            let mut items = Vec::new();
            while tokens[*at] != ")" {
                items.push(self.read_form(tokens, at));
            }
            *at += 1;
            self.list(&items)
        } else {
            match token.parse::<i64>() {
                Ok(n) => num(n),
                Err(_) => self.intern(token),
            }
        }
    }

    fn list(&mut self, items: &[LispObject]) -> LispObject {
        let mut rest = nil();
        for item in items.iter().rev() {
            rest = self.heap.cons(*item, rest);
        }
        rest
    }

    fn elements(&self, obj: LispObject) -> Vec<LispObject> {
        let mut rest = obj;
        let mut items = Vec::new();
        while let Some(cell) = self.heap.cons_at(rest) {
            items.push(cell.car);
            rest = cell.cdr;
        }
        items
    }

    fn eval_text(&mut self, text: &str) -> Result<LispObject, LispError> {
        let form = self.read(text);
        self.eval(form)
    }

    fn drive(&mut self, first: Step) -> Result<LispObject, LispError> {
        let mut step = first;
        loop {
            match step {
                Step::Done(value) => return Ok(value),
                Step::Fail(error) => return Err(error),
                Step::Call(request, frame) => {
                    let reply = self.perform(request)?;
                    assert!(can_resume(&self.heap, &frame, reply));
                    step = resume(&mut self.heap, frame, reply);
                }
            }
        }
    }

    fn perform(&mut self, request: Request) -> Result<LispObject, LispError> {
        match request {
            Request::Eval { form } => self.eval(form),
            Request::Funcall { func } => self.call(func, &[]),
            Request::Apply { func, arg } => {
                let args = self.elements(arg);
                self.call(func, &args)
            }
            Request::SetValue { sym: LispObject::Symbol(id), val }
            | Request::SetDefault { sym: LispObject::Symbol(id), val } => {
                self.values[id] = val;
                Ok(val)
            }
            Request::Specbind { sym: LispObject::Symbol(id), val } => {
                if id == QINTERNAL_INTERPRETER_ENVIRONMENT {
                    self.specpdl.push((id, self.heap.lexenv()));
                    self.heap.set_lexenv(val);
                } else {
                    self.specpdl.push((id, self.values[id]));
                    self.values[id] = val;
                }
                Ok(nil())
            }
            Request::UnbindTo { count, val } => {
                self.unbind_to(count as usize);
                Ok(val)
            }
            Request::AutoloadDoLoad { def, .. } => Ok(def),
            Request::MaybeQuit | Request::Put { .. } | Request::LoadhistAttach { .. } => Ok(nil()),
            other => panic!("{:?}", other),
        }
    }

    fn unbind_to(&mut self, count: usize) {
        while self.specpdl.len() > count {
            let (id, old) = self.specpdl.pop().unwrap();
            if id == QINTERNAL_INTERPRETER_ENVIRONMENT {
                self.heap.set_lexenv(old);
            } else {
                self.values[id] = old;
            }
        }
    }

    fn eval(&mut self, form: LispObject) -> Result<LispObject, LispError> {
        let depth = self.specpdl.len();
        let result = self.eval_form(form);
        if result.is_err() {
            // A non-local exit undoes the bindings that it leaves.
            self.unbind_to(depth);
        }
        result
    }

    fn eval_form(&mut self, form: LispObject) -> Result<LispObject, LispError> {
        if let LispObject::Symbol(id) = form {
            if id == QNIL || id == QT {
                return Ok(form);
            }
            let binding = assq(&self.heap, form, self.heap.lexenv())?;
            return Ok(match self.heap.cons_at(binding) {
                Some(pair) => pair.cdr,
                None => self.values[id],
            });
        }
        let cell = match self.heap.cons_at(form) {
            Some(cell) => cell,
            None => return Ok(form),
        };
        let args = cell.cdr;
        let name = match cell.car {
            LispObject::Symbol(id) => self.names[id].clone(),
            _ => String::new(),
        };
        let count = self.specpdl.len() as i64;
        let heap = &mut self.heap;
        let step = match (name.as_str(), args) {
            ("or", _) => or(heap, args),
            ("and", _) => and(heap, args),
            ("if", _) => lisp_if(heap, args),
            ("cond", _) => cond(heap, args),
            ("progn", _) => progn(heap, args),
            ("prog1", _) => prog1(heap, args),
            ("prog2", _) => prog2(heap, args),
            ("setq", _) => setq(heap, args),
            ("function", _) => function(heap, args),
            ("defconst", _) => defconst(heap, args),
            ("while", LispObject::Cons(id)) => lisp_while(heap, LispCons { id }),
            ("let", LispObject::Cons(id)) => lisp_let(heap, LispCons { id }, count),
            ("let*", LispObject::Cons(id)) => letX(heap, LispCons { id }, count),
            ("quote", _) => return Ok(heap.cell(args).car),
            _ => {
                let mut values = Vec::new();
                for arg in self.elements(args) {
                    values.push(self.eval(arg)?);
                }
                return match name.as_str() {
                    "+" => Ok(num(values.iter().map(|v| as_num(*v)).sum())),
                    "<" => Ok(LispObject::from_bool(as_num(values[0]) < as_num(values[1]))),
                    "list" => Ok(self.list(&values)),
                    "call" => self.call(values[0], &values[1..]),
                    _ => {
                        let def = match cell.car {
                            LispObject::Symbol(id) => self.heap.function(id),
                            other => other,
                        };
                        self.call(def, &values)
                    }
                };
            }
        };
        self.drive(step)
    }

    fn call(&mut self, func: LispObject, args: &[LispObject]) -> Result<LispObject, LispError> {
        let parts = self.elements(func);
        let depth = self.specpdl.len();
        let closed = parts[0] == LispObject::Symbol(QCLOSURE);
        let skip = if closed { 2 } else { 1 };
        let params = self.elements(parts[skip]);
        if closed {
            let mut env = parts[1];
            for (param, arg) in params.iter().zip(args) {
                let pair = self.heap.cons(*param, *arg);
                env = self.heap.cons(pair, env);
            }
            self.specpdl.push((QINTERNAL_INTERPRETER_ENVIRONMENT, self.heap.lexenv()));
            self.heap.set_lexenv(env);
        } else {
            for (param, arg) in params.iter().zip(args) {
                self.perform(Request::Specbind { sym: *param, val: *arg })?;
            }
        }
        let mut value = nil();
        for form in &parts[skip + 1..] {
            value = self.eval(*form)?;
        }
        self.unbind_to(depth);
        Ok(value)
    }
}

fn as_num(obj: LispObject) -> i64 {
    match obj {
        LispObject::Fixnum(n) => n,
        other => panic!("no number: {:?}", other),
    }
}

#[test]
fn let_values_do_not_see_the_new_bindings() {
    for mut core in [Core::new(), Core::lexical()] {
        let value = core.eval_text("(let ((x 1)) (let ((x 2) (y x)) (+ y x)))");
        assert_eq!(value, Ok(num(3)));
    }
}

#[test]
fn let_star_values_see_the_new_bindings() {
    for mut core in [Core::new(), Core::lexical()] {
        let value = core.eval_text("(let ((x 1)) (let* ((x 2) (y x) (x (+ x y))) (+ y x)))");
        assert_eq!(value, Ok(num(6)));
    }
}

#[test]
fn bindings_end_with_their_form() {
    for mut core in [Core::new(), Core::lexical()] {
        let env = core.heap.lexenv();
        core.eval_text("(setq x 1)").unwrap();
        assert_eq!(core.eval_text("(let ((x 2)) (let* ((x 3)) x))"), Ok(num(3)));
        assert_eq!(core.eval_text("x"), Ok(num(1)));
        assert_eq!(core.heap.lexenv(), env);
        assert_eq!(core.specpdl.len(), 0);
    }
}

#[test]
fn bindings_end_with_an_error() {
    for mut core in [Core::new(), Core::lexical()] {
        let env = core.heap.lexenv();
        core.eval_text("(setq x 1)").unwrap();
        assert!(core.eval_text("(let ((x 2)) (prog1))").is_err());
        assert_eq!(core.eval_text("x"), Ok(num(1)));
        assert_eq!(core.heap.lexenv(), env);
    }
}

#[test]
fn setq_values_see_the_variables_set_before() {
    for mut core in [Core::new(), Core::lexical()] {
        assert_eq!(core.eval_text("(setq x 1 y (+ x 1) x (+ x y))"), Ok(num(3)));
        assert_eq!(core.eval_text("(list x y)").map(|v| core.elements(v)), Ok(vec![num(3), num(2)]));
    }
}

#[test]
fn while_sums_up() {
    for mut core in [Core::new(), Core::lexical()] {
        let value = core.eval_text(
            "(let ((i 0) (sum 0)) (while (< i 5) (setq i (+ i 1)) (setq sum (+ sum i))) sum)",
        );
        assert_eq!(value, Ok(num(15)));
    }
}

#[test]
fn closures_keep_their_variables() {
    let mut core = Core::lexical();
    core.eval_text("(setq next (let ((n 0)) (function (lambda () (setq n (+ n 1))))))").unwrap();
    assert_eq!(core.eval_text("(call next)"), Ok(num(1)));
    assert_eq!(core.eval_text("(call next)"), Ok(num(2)));
    assert_eq!(core.eval_text("(let ((n 10)) (call next))"), Ok(num(3)));
    assert_eq!(core.eval_text("n"), Ok(nil()));
}

#[test]
fn dynamic_functions_see_the_caller() {
    let mut core = Core::new();
    core.eval_text("(setq get (function (lambda () n)))").unwrap();
    assert_eq!(core.eval_text("(let ((n 10)) (call get))"), Ok(num(10)));
    assert_eq!(core.eval_text("(call get)"), Ok(nil()));
}

#[test]
fn constants_are_bound_dynamically() {
    let mut core = Core::lexical();
    assert_eq!(core.eval_text("(defconst limit 7)"), Ok(core.intern("limit")));
    core.eval_text("(setq get (function (lambda () limit)))").unwrap();
    assert_eq!(core.eval_text("(call get)"), Ok(num(7)));
    assert_eq!(core.eval_text("(let ((limit 8)) (call get))"), Ok(num(8)));
    assert_eq!(core.eval_text("(call get)"), Ok(num(7)));
}

#[test]
fn conditionals_together() {
    let mut core = Core::new();
    assert_eq!(core.eval_text("(if (and 1 nil) 2 (or nil 3))"), Ok(num(3)));
    assert_eq!(core.eval_text("(cond ((< 2 1) 5) ((+ 1 1)) (t 6))"), Ok(num(2)));
    assert_eq!(core.eval_text("(prog2 (setq a 1) (+ a 1) (setq a 5))"), Ok(num(2)));
    assert_eq!(core.eval_text("a"), Ok(num(5)));
}

#[test]
fn macros_expand_in_turn() {
    let mut core = Core::new();
    // (unless C F) is (when-not C F), which is (if C nil F).
    let when_not = core.intern("when-not");
    let unless = core.intern("unless");
    let first = core.read("(macro lambda (c f) (list (quote when-not) c f))");
    let second = core.read("(macro lambda (c f) (list (quote if) c nil f))");
    for (symbol, def) in [(unless, first), (when_not, second)] {
        if let LispObject::Symbol(id) = symbol {
            core.heap.set_function(id, def);
        }
    }
    let form = core.read("(unless x 5)");
    let step = macroexpand(&core.heap, form, nil());
    let expansion = core.drive(step).unwrap();
    let expected = core.read("(if x nil 5)");
    assert_eq!(core.elements(expansion), core.elements(expected));
    assert_eq!(core.eval(expansion), Ok(num(5)));
}

#[test]
fn programs_are_not_changed_by_running_them() {
    let mut core = Core::lexical();
    let form = core.read("(let* ((a 1) (b (+ a 1))) (function (lambda (c) (list a b c))))");
    let before: Vec<_> = (0..core.heap.cons_count())
        .map(|id| core.heap.cons_at(LispObject::Cons(id)))
        .collect();
    let closure = core.eval(form).unwrap();
    assert_eq!(core.call(closure, &[num(9)]).map(|v| core.elements(v)), Ok(vec![num(1), num(2), num(9)]));
    for (id, cell) in before.iter().enumerate() {
        assert_eq!(core.heap.cons_at(LispObject::Cons(id)), *cell);
    }
}

/// The elements of the list that a form evaluates to.
fn elements_of(core: &mut Core, text: &str) -> Vec<LispObject> {
    let value = core.eval_text(text).unwrap();
    core.elements(value)
}

#[test]
fn let_star_is_let_around_let_star() {
    for mut core in [Core::new(), Core::lexical()] {
        let env = core.heap.lexenv();
        let whole = "(let* ((a 1) (b (+ a 1)) (c (+ a b))) (setq b 7) (list a b c))";
        let nested = "(let ((a 1)) (let* ((b (+ a 1)) (c (+ a b))) (setq b 7) (list a b c)))";
        let expected = vec![num(1), num(7), num(3)];
        assert_eq!(elements_of(&mut core, whole), expected);
        assert_eq!(elements_of(&mut core, nested), expected);
        assert_eq!(core.heap.lexenv(), env);
        assert_eq!(core.eval_text("(let* () 1 2)"), core.eval_text("(progn 1 2)"));
    }
}

#[test]
fn let_star_of_a_special_variable_is_let_around_let_star() {
    let mut core = Core::lexical();
    core.eval_text("(defconst a 0)").unwrap();
    let whole = "(let* ((a 1) (b (+ a 1)) (c b)) (list a b c))";
    let nested = "(let ((a 1)) (let* ((b (+ a 1)) (c b)) (list a b c)))";
    let expected = vec![num(1), num(2), num(2)];
    assert_eq!(elements_of(&mut core, whole), expected);
    assert_eq!(elements_of(&mut core, nested), expected);
    assert_eq!(core.eval_text("a"), Ok(num(0)));
}

#[test]
fn the_order_of_let_bindings_does_not_matter() {
    for mut core in [Core::new(), Core::lexical()] {
        core.eval_text("(defconst b 0)").unwrap();
        let expected = vec![num(1), num(2), nil()];
        for varlist in
            ["((a 1) (b 2) c)", "(c (b 2) (a 1))", "((b 2) c (a 1))", "((b 2) (a 1) c)"]
        {
            let text = format!("(let {} (list a b c))", varlist);
            assert_eq!(elements_of(&mut core, &text), expected);
        }
    }
}

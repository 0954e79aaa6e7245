//! Quoting functions and expanding macros over a whole run.
use vstd::prelude::*;
use crate::errors::LispError;
use crate::heap::{Cons, Memory};
use crate::machine::{Frame, Request, Step};
use crate::object::{LispObject, QCLOSURE, QINTERACTIVE, QLAMBDA, QMACRO, QNIL};
use crate::trace::Answer;

verus! {

/// With dynamic binding, `function` returns its argument, and changes nothing.
pub proof fn law_function_dynamic(m: Memory, args: LispObject, quoted: LispObject)
    requires
        m.cons(args) == Some(Cons { car: quoted, cdr: LispObject::nil() }),
        m.lexenv.is_nil(),
    ensures
        m.quote_function(args) == (m, Step::Done(quoted)),
{
}

/// With lexical binding, `function` makes a closure of a lambda expression without
/// a documentation form: (closure ENVIRONMENT ARGUMENTS BODY...), with the lexical
/// environment of the moment and the arguments and the body of the expression
/// themselves. No cell changes.
pub proof fn law_function_closure(
    m: Memory,
    args: LispObject,
    quoted: LispObject,
    lambda: LispObject,
)
    requires
        m.well_formed(),
        m.conses.len() + 2 <= usize::MAX,
        m.cons(args) == Some(Cons { car: quoted, cdr: LispObject::nil() }),
        !m.lexenv.is_nil(),
        m.cons(quoted) == Some(Cons { car: LispObject::Symbol(QLAMBDA), cdr: lambda }),
        m.lambda_documentation(lambda) is None,
    ensures
        ({
            let (n, step) = m.quote_function(args);
            &&& n.extends(m)
            &&& step matches Step::Done(closure) && n.closes(closure, m.lexenv, lambda)
        }),
{
    crate::laws::memory::lemma_roots(m);
    crate::laws::memory::lemma_cell(m, quoted);
    lemma_closure(m, lambda);
}

impl Memory {
    /// `closure` is (closure `environment` . `lambda`).
    pub open spec fn closes(
        self,
        closure: LispObject,
        environment: LispObject,
        lambda: LispObject,
    ) -> bool {
        &&& self.cons(closure) matches Some(head)
        &&& head.car == LispObject::Symbol(QCLOSURE)
        &&& self.cons(head.cdr) == Some(Cons { car: environment, cdr: lambda })
    }
}

proof fn lemma_closure(m: Memory, lambda: LispObject)
    requires
        m.well_formed(),
        m.has(lambda),
        m.conses.len() + 2 <= usize::MAX,
    ensures
        m.closure(lambda).0.extends(m),
        m.closure(lambda).0.closes(m.closure(lambda).1, m.lexenv, lambda),
{
    crate::laws::memory::lemma_roots(m);
    let (n, captured) = m.consed(m.lexenv, lambda);
    crate::laws::memory::lemma_consed(m, m.lexenv, lambda);
    crate::laws::memory::lemma_consed(n, LispObject::Symbol(QCLOSURE), captured);
}

/// A lambda expression whose body begins with (:documentation FORM) has FORM
/// evaluated first. A string takes the place of that form in the closure, in front of
/// the rest of the body; anything else is refused. The expression itself does not
/// change.
pub proof fn law_function_documented(
    m: Memory,
    args: LispObject,
    quoted: LispObject,
    lambda: LispObject,
    doc: LispObject,
    form: LispObject,
    answer: Answer,
    arguments: Cons,
    body: Cons,
)
    requires
        m.cons(args) == Some(Cons { car: quoted, cdr: LispObject::nil() }),
        !m.lexenv.is_nil(),
        m.cons(quoted) == Some(Cons { car: LispObject::Symbol(QLAMBDA), cdr: lambda }),
        m.lambda_documentation(lambda) == Some(doc),
        m.car(doc) == Ok::<LispObject, LispError>(form),
        answer.memory.well_formed(),
        answer.memory.has(answer.reply),
        answer.memory.conses.len() + 4 <= usize::MAX,
        answer.memory.cons(lambda) == Some(arguments),
        answer.memory.cons(arguments.cdr) == Some(body),
    ensures
        m.quote_function(args) == (
            m,
            Step::Call(Request::Eval { form }, Frame::FunctionDoc { lambda }),
        ),
        ({
            let (n, step) = answer.memory.resumed(Frame::FunctionDoc { lambda }, answer.reply);
            if answer.reply is Str {
                &&& n.extends(answer.memory)
                &&& step matches Step::Done(closure)
                &&& exists|replaced: LispObject, documented: LispObject|
                    n.closes(closure, answer.memory.lexenv, replaced) && n.cons(replaced) == Some(
                        Cons { car: arguments.car, cdr: documented },
                    ) && n.cons(documented) == Some(Cons { car: answer.reply, cdr: body.cdr })
            } else {
                &&& n == answer.memory
                &&& step matches Step::Fail(LispError::WrongType { value, .. }) && value
                    == answer.reply
            }
        }),
{
    let here = answer.memory;
    if answer.reply is Str {
        crate::laws::memory::lemma_cell(here, lambda);
        crate::laws::memory::lemma_cell(here, arguments.cdr);
        let (m1, documented) = here.consed(answer.reply, body.cdr);
        crate::laws::memory::lemma_consed(here, answer.reply, body.cdr);
        let (m2, replaced) = m1.consed(arguments.car, documented);
        crate::laws::memory::lemma_consed(m1, arguments.car, documented);
        lemma_closure(m2, replaced);
        let (n, closure) = m2.closure(replaced);
        assert(here.resumed(Frame::FunctionDoc { lambda }, answer.reply) == (
            n,
            Step::Done(closure),
        ));
        assert(n.closes(closure, here.lexenv, replaced));
        assert(n.cons(replaced) == Some(Cons { car: arguments.car, cdr: documented }));
        assert(n.cons(documented) == Some(Cons { car: answer.reply, cdr: body.cdr }));
    }
}

/// A closure is a command if and only if the lambda expression that it was made of is
/// one.
pub proof fn law_closure_command(m: Memory, quoted: LispObject, lambda: LispObject)
    requires
        m.well_formed(),
        m.conses.len() + 2 <= usize::MAX,
        m.cons(quoted) == Some(Cons { car: LispObject::Symbol(QLAMBDA), cdr: lambda }),
    ensures
        m.closure(lambda).0.list_command(m.closure(lambda).1) == m.list_command(quoted),
{
    reveal_with_fuel(Memory::nthcdr, 3);
    crate::laws::memory::lemma_cell(m, quoted);
    lemma_closure(m, lambda);
    let (n, closure) = m.closure(lambda);
    crate::laws::memory::lemma_extended_tail(n, m, lambda, 0);
    crate::laws::memory::lemma_cell(m, lambda);
    if let Ok(forms) = m.cdr(lambda) {
        crate::laws::memory::lemma_roots(m);
        crate::laws::memory::lemma_extended_assq(
            n,
            m,
            LispObject::Symbol(QINTERACTIVE),
            forms,
        );
    }
}

/// The form that `macroexpand` considers after the `answers`: the last expansion, or
/// `form` itself as long as no macro has been called.
pub open spec fn considered(start: Step, form: LispObject, answers: Seq<Answer>) -> LispObject
    decreases answers.len(),
{
    if answers.len() == 0 {
        form
    } else if start.after(answers.drop_last()) matches Step::Call(_, Frame::MacroExpanded { .. }) {
        answers.last().reply
    } else {
        considered(start, form, answers.drop_last())
    }
}

/// Whatever is answered, `macroexpand` returns the form that it considers: FORM
/// unchanged if no macro is called, and otherwise the last expansion, which takes the
/// place of the form that was expanded. The environment stays the same throughout.
pub proof fn law_macroexpand(
    m: Memory,
    form: LispObject,
    environment: LispObject,
    answers: Seq<Answer>,
)
    ensures
        ({
            let start = m.macroexpand(form, environment);
            let current = considered(start, form, answers);
            match start.after(answers) {
                Step::Done(value) => value == current,
                Step::Call(_, Frame::MacroPolled { form: f, environment: e, .. }) => f == current
                    && e == environment,
                Step::Call(_, Frame::MacroLoaded { form: f, environment: e, .. }) => f == current
                    && e == environment,
                Step::Call(_, Frame::MacroExpanded { form: f, environment: e }) => f == current
                    && e == environment,
                Step::Call(_, _) => false,
                Step::Fail(_) => true,
            }
        }),
    decreases answers.len(),
{
    if answers.len() > 0 {
        law_macroexpand(m, form, environment, answers.drop_last());
    }
}

/// Where the run that began in `m` with `start` has come to the form `r`: `j` answers
/// after its beginning, it goes on as an expansion of `r` would begin.
pub open spec fn comes_to(
    m: Memory,
    start: Step,
    r: LispObject,
    environment: LispObject,
    answers: Seq<Answer>,
    j: int,
) -> bool {
    let here = if j > 0 {
        answers[j - 1].memory
    } else {
        m
    };
    0 <= j <= answers.len() && start.after(answers.take(j)) == here.macroexpand(r, environment)
}

impl Answer {
    /// This answer is the same as `other`, and comes with a heap on which the cells and
    /// the function definitions of the other are unchanged.
    pub open spec fn repeats(self, other: Answer) -> bool {
        &&& self.reply == other.reply
        &&& self.memory.extends(other.memory)
        &&& forall|id: usize| #[trigger] self.memory.function(id) == other.memory.function(id)
    }
}

/// To expand what `macroexpand` has returned gives that same form, where the
/// environment, the function definitions and what the expanders return are the same as
/// before. The run came to the form that it returned at some answer `j`; another
/// expansion of that form, begun in `n` and answered like the run from there on, comes
/// to its end with the form itself.
pub proof fn law_macroexpand_again(
    m: Memory,
    form: LispObject,
    environment: LispObject,
    answers: Seq<Answer>,
) -> (j: int)
    requires
        m.macroexpand(form, environment).after(answers) is Done,
        forall|k: int|
            0 <= k < answers.len() ==> (#[trigger] answers[k]).memory.well_formed()
                && answers[k].memory.has(environment) && answers[k].memory.has(answers[k].reply),
    ensures
        ({
            let start = m.macroexpand(form, environment);
            let r = start.after(answers)->Done_0;
            let here = if j > 0 {
                answers[j - 1].memory
            } else {
                m
            };
            &&& comes_to(m, start, r, environment, answers, j)
            &&& forall|n: Memory, again: Seq<Answer>|
                n.cons(r) == here.cons(r) && again.len() == answers.len() - j && (forall|k: int|
                    0 <= k < again.len() ==> (#[trigger] again[k]).repeats(answers[j + k]))
                    ==> #[trigger] n.macroexpand(r, environment).after(again) == Step::Done(r)
        }),
{
    let start = m.macroexpand(form, environment);
    law_macroexpand(m, form, environment, answers);
    let j = lemma_comes_to(m, form, environment, answers);
    let r = start.after(answers)->Done_0;
    let here = if j > 0 {
        answers[j - 1].memory
    } else {
        m
    };
    assert forall|n: Memory, again: Seq<Answer>|
        n.cons(r) == here.cons(r) && again.len() == answers.len() - j && (forall|k: int|
            0 <= k < again.len() ==> (#[trigger] again[k]).repeats(
                answers[j + k],
            )) implies #[trigger] n.macroexpand(r, environment).after(again) == Step::Done(r) by {
        let late = answers.skip(j);
        assert(answers =~= answers.take(j) + late);
        crate::trace::lemma_after_split(start, answers.take(j), late);
        let next = here.macroexpand(r, environment);
        assert(n.macroexpand(r, environment) == next);
        law_macroexpand(here, r, environment, late);
        assert forall|k: int| 0 <= k < late.len() implies (#[trigger] again[k]).repeats(late[k])
            && late[k].memory.well_formed() && late[k].memory.has(environment)
            && late[k].memory.has(late[k].reply) by {
            assert(late[k] == answers[j + k]);
        }
        lemma_macro_repeats(here, r, environment, late, again);
    }
    j
}

/// A run of `macroexpand` has come to the form that it considers.
proof fn lemma_comes_to(
    m: Memory,
    form: LispObject,
    environment: LispObject,
    answers: Seq<Answer>,
) -> (j: int)
    requires
        !(m.macroexpand(form, environment).after(answers) is Fail),
    ensures
        ({
            let start = m.macroexpand(form, environment);
            comes_to(m, start, considered(start, form, answers), environment, answers, j)
        }),
    decreases answers.len(),
{
    let start = m.macroexpand(form, environment);
    if answers.len() == 0 {
        assert(answers.take(0) =~= answers);
        0
    } else {
        let before = answers.drop_last();
        law_macroexpand(m, form, environment, before);
        let j = lemma_comes_to(m, form, environment, before);
        assert(before.take(j) =~= answers.take(j));
        let current = considered(start, form, before);
        if start.after(before) matches Step::Call(_, Frame::MacroExpanded { .. })
            && answers.last().reply != current {
            assert(answers.take(answers.len() as int) =~= answers);
            answers.len() as int
        } else {
            j
        }
    }
}

/// The same answers, on a heap where the cells and the function definitions are
/// unchanged, take `macroexpand` the same way.
proof fn lemma_macro_repeats(
    m: Memory,
    form: LispObject,
    environment: LispObject,
    answers: Seq<Answer>,
    again: Seq<Answer>,
)
    requires
        again.len() == answers.len(),
        forall|k: int|
            0 <= k < answers.len() ==> (#[trigger] again[k]).repeats(answers[k])
                && answers[k].memory.well_formed() && answers[k].memory.has(environment)
                && answers[k].memory.has(answers[k].reply),
    ensures
        m.macroexpand(form, environment).after(again) == m.macroexpand(form, environment).after(
            answers,
        ),
    decreases answers.len(),
{
    if answers.len() > 0 {
        let start = m.macroexpand(form, environment);
        let before = answers.drop_last();
        let before_again = again.drop_last();
        assert forall|k: int| 0 <= k < before.len() implies (#[trigger] before_again[k]).repeats(
            before[k],
        ) && before[k].memory.well_formed() && before[k].memory.has(environment)
            && before[k].memory.has(before[k].reply) by {
            assert(again[k].repeats(answers[k]));
        }
        lemma_macro_repeats(m, form, environment, before, before_again);
        law_macroexpand(m, form, environment, before);
        let last = answers[answers.len() - 1];
        let next = again[answers.len() - 1];
        assert(next.repeats(last));
        crate::laws::memory::lemma_extended_tail(next.memory, last.memory, last.reply, 0);
        if let Step::Call(_, Frame::MacroPolled { symbol, .. }) = start.after(before) {
            let key = LispObject::Symbol(symbol);
            crate::laws::memory::lemma_extended_assq(next.memory, last.memory, key, environment);
            crate::laws::memory::lemma_search(last.memory, key, environment);
            if let Ok(found) = last.memory.assq(key, environment) {
                crate::laws::memory::lemma_extended_tail(next.memory, last.memory, found, 0);
            }
            assert(next.memory.function(symbol) == last.memory.function(symbol));
        }
    }
}

/// An expansion is considered in place of the form that it came from, and a macro that
/// returns its own call is not expanded again. What is no call is returned as it is.
pub proof fn law_macro_expansion(
    m: Memory,
    form: LispObject,
    environment: LispObject,
    newform: LispObject,
)
    ensures
        m.resumed(Frame::MacroExpanded { form, environment }, newform) == (
            m,
            if newform == form {
                Step::Done(form)
            } else {
                m.macroexpand(newform, environment)
            },
        ),
        m.cons(newform) is None ==> m.macroexpand(newform, environment) == Step::Done(newform),
{
}

/// A macro definition in the environment shadows the function definitions: what is
/// done with a call of it does not depend on the symbols. A definition of nil says
/// that there is no macro of that name.
pub proof fn law_macro_environment(
    m: Memory,
    n: Memory,
    form: LispObject,
    body: LispObject,
    environment: LispObject,
    symbol: usize,
    entry: LispObject,
    definition: Cons,
)
    requires
        n.conses == m.conses,
        m.assq(LispObject::Symbol(symbol), environment) == Ok::<LispObject, LispError>(entry),
        m.cons(entry) == Some(definition),
    ensures
        n.macro_lookup(form, body, environment, symbol) == m.macro_lookup(
            form,
            body,
            environment,
            symbol,
        ),
        m.macro_lookup(form, body, environment, symbol) == if definition.cdr.is_nil() {
            Step::Done(form)
        } else {
            Step::Call(
                Memory::application(definition.cdr, body),
                Frame::MacroExpanded { form, environment },
            )
        },
{
    let key = LispObject::Symbol(symbol);
    let first = crate::lists::lemma_assq_cell(m, key, environment);
    assert forall|k: nat| n.tail(environment, k) == m.tail(environment, k) by {
        lemma_same_cells(n, m, environment, k);
    }
    assert forall|k: nat| n.assq_at(key, environment, k) == m.assq_at(key, environment, k) by {
        assert(n.tail(environment, k) == m.tail(environment, k));
    }
    crate::lists::lemma_assq_found(n, key, environment, first);
}

proof fn lemma_same_cells(n: Memory, m: Memory, obj: LispObject, k: nat)
    requires
        n.conses == m.conses,
    ensures
        n.tail(obj, k) == m.tail(obj, k),
    decreases k,
{
    if k > 0 {
        lemma_same_cells(n, m, obj, (k - 1) as nat);
    }
}

/// The function definition of the symbol number `i` of a chain of aliases: the next
/// symbol, and `def` for the last one.
pub open spec fn definition_of(names: Seq<usize>, def: LispObject, i: int) -> LispObject {
    if i + 1 < names.len() {
        LispObject::Symbol(names[i + 1])
    } else {
        def
    }
}

/// A symbol whose function definition is another symbol is an alias: `macroexpand`
/// follows the aliases in order, letting the user quit at each symbol, up to the
/// first one that is no alias, and asks for the definition of that one to be loaded.
/// A definition with the mark `macro' is called with the arguments of the call; any
/// other leaves the form as it is.
pub proof fn law_macro_aliases(
    names: Seq<usize>,
    form: LispObject,
    body: LispObject,
    environment: LispObject,
    def: LispObject,
    answers: Seq<Answer>,
)
    requires
        names.len() > 0,
        answers.len() <= names.len() + 1,
        forall|k: int, i: int|
            0 <= k < answers.len() && 0 <= i < names.len() ==> (
            #[trigger] answers[k]).memory.named(
                #[trigger] names[i],
                environment,
                definition_of(names, def, i),
            ),
        forall|i: int| 0 < i < names.len() ==> #[trigger] names[i] != QNIL,
        def is Symbol ==> def.is_nil(),
    ensures
        ({
            let start = Step::Call(
                Request::MaybeQuit,
                Frame::MacroPolled { form, body, environment, symbol: names[0] },
            );
            let n = answers.len() as int;
            start.after(answers) == if n < names.len() {
                Step::Call(
                    Request::MaybeQuit,
                    Frame::MacroPolled { form, body, environment, symbol: names[n] },
                )
            } else if n == names.len() {
                Step::Call(
                    Request::AutoloadDoLoad {
                        def,
                        name: LispObject::Symbol(names.last()),
                        macro_only: LispObject::Symbol(QMACRO),
                    },
                    Frame::MacroLoaded { form, body, environment },
                )
            } else {
                match answers.last().memory.cons(answers.last().reply) {
                    Some(cell) if cell.car == LispObject::Symbol(QMACRO) => Step::Call(
                        Memory::application(cell.cdr, body),
                        Frame::MacroExpanded { form, environment },
                    ),
                    _ => Step::Done(form),
                }
            }
        }),
    decreases answers.len(),
{
    if answers.len() > 0 {
        let before = answers.drop_last();
        assert forall|k: int, i: int| 0 <= k < before.len() && 0 <= i < names.len() implies (
        #[trigger] before[k]).memory.named(
            #[trigger] names[i],
            environment,
            definition_of(names, def, i),
        ) by {
            assert(before[k] == answers[k]);
        }
        law_macro_aliases(names, form, body, environment, def, before);
        let last = answers[answers.len() - 1];
        if before.len() < names.len() {
            let i = before.len() as int;
            assert(last.memory.named(names[i], environment, definition_of(names, def, i)));
            if i + 1 < names.len() {
                assert(names[i + 1] != QNIL);
            }
        }
    }
}

impl Memory {
    /// The symbol `id` is not in the macro environment, and its function definition
    /// is `def`.
    pub open spec fn named(self, id: usize, environment: LispObject, def: LispObject) -> bool {
        &&& self.assq(LispObject::Symbol(id), environment) == Ok::<LispObject, LispError>(
            LispObject::nil(),
        )
        &&& self.function(id) == def
    }
}

} // verus!

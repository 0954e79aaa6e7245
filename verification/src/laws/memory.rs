//! What stays as it is on the heap.
use vstd::prelude::*;
use crate::binding::LetBinding;
use crate::errors::LispError;
use crate::heap::Memory;
use crate::machine::{After, Bindings, Frame, Request, Scope, Step};
use crate::object::{
    LispObject, LispStringRef, LispSymbolRef, QAUTOLOAD, QCLOSURE, QINTERACTIVE, STATIC_SYMBOLS,
};

verus! {

impl LispError {
    /// The heap holds what the error refers to.
    pub open spec fn within(self, m: Memory) -> bool {
        match self {
            LispError::WrongType { predicate, value } => m.has(LispObject::Symbol(predicate))
                && m.has(value),
            LispError::WrongNumberOfArguments { function, .. } => m.has(
                LispObject::Symbol(function),
            ),
            LispError::CircularList { list } => m.has(list),
            LispError::TooManyArguments => true,
            LispError::LetBinding { binding } => m.has(binding),
        }
    }
}

impl Request {
    /// The heap holds what the request refers to.
    pub open spec fn within(self, m: Memory) -> bool {
        match self {
            Request::Eval { form } => m.has(form),
            Request::Funcall { func } => m.has(func),
            Request::Apply { func, arg } => m.has(func) && m.has(arg),
            Request::SetValue { sym, val } => m.has(sym) && m.has(val),
            Request::SetDefault { sym, val } => m.has(sym) && m.has(val),
            Request::Purecopy { obj } => m.has(obj),
            Request::Get { sym, prop } => m.has(sym) && m.has(prop),
            Request::Put { sym, prop, val } => m.has(sym) && m.has(prop) && m.has(val),
            Request::LoadhistAttach { sym } => m.has(sym),
            Request::Defalias { sym, def, doc } => m.has(sym) && m.has(def) && m.has(doc),
            Request::AutoloadDoLoad { def, name, macro_only } => m.has(def) && m.has(name) && m.has(
                macro_only,
            ),
            Request::IndirectFunction { obj } => m.has(obj),
            Request::Specbind { sym, val } => m.has(sym) && m.has(val),
            Request::UnbindTo { val, .. } => m.has(val),
            Request::MaybeQuit => true,
        }
    }
}

impl After {
    pub open spec fn within(self, m: Memory) -> bool {
        match self {
            After::Value => true,
            After::Constant { value } => m.has(value),
            After::Again { test, body } => m.has(test) && m.has(body),
            After::Unbind { .. } => true,
        }
    }
}

impl Scope {
    pub open spec fn within(self, m: Memory) -> bool {
        m.has(self.varlist) && m.has(self.rest) && m.has(self.body) && m.has(self.lexenv)
    }
}

impl Bindings {
    pub open spec fn within(self, m: Memory) -> bool
        decreases self,
    {
        match self {
            Bindings::Empty => true,
            Bindings::Bind { var, val, rest } => m.has(var) && m.has(val) && rest.within(m),
        }
    }
}

impl Frame {
    /// The heap holds what the frame refers to.
    pub open spec fn within(self, m: Memory) -> bool {
        match self {
            Frame::Return => true,
            Frame::Answer { value } => m.has(value),
            Frame::Or { rest } => m.has(rest),
            Frame::And { rest } => m.has(rest),
            Frame::If { cell } => m.cons(cell) is Some,
            Frame::Cond { clause, rest } => m.cons(clause) is Some && m.has(rest),
            Frame::Progn { rest, after } => m.has(rest) && after.within(m),
            Frame::Prog1 { body } => m.has(body),
            Frame::Prog2 { rest } => m.has(rest),
            Frame::WhileTest { test, body } => m.has(test) && m.has(body),
            Frame::WhilePolled { test, body } => m.has(test) && m.has(body),
            Frame::SetqValue { list, rest, sym, .. } => m.has(list) && m.has(rest) && m.has(sym),
            Frame::SetqStored { list, rest, val, .. } => m.has(list) && m.has(rest) && m.has(val),
            Frame::DefconstValue { sym, docstring } => m.has(sym) && m.has(docstring),
            Frame::DefconstPure { sym, docstring } => m.has(sym) && m.has(docstring),
            Frame::DefconstStored { sym, docstring } => m.has(sym) && m.has(docstring),
            Frame::DefconstDoc { sym } => m.has(sym),
            Frame::DefconstRisky { sym } => m.has(sym),
            Frame::DefconstHistory { sym } => m.has(sym),
            Frame::LetStarPolled { scope, binding } => scope.within(m) && m.has(binding),
            Frame::LetStarValue { scope, var } => scope.within(m) && m.has(var),
            Frame::LetStarBound { scope } => scope.within(m),
            Frame::LetValue { scope, var, values } => scope.within(m) && m.has(var)
                && values.within(m),
            Frame::LetBound { lexenv, pending, body, .. } => m.has(lexenv) && pending.within(m)
                && m.has(body),
            Frame::LetEntered { body, .. } => m.has(body),
            Frame::FunctionDoc { lambda } => m.has(lambda),
            Frame::MacroPolled { form, body, environment, symbol } => m.has(form) && m.has(body)
                && m.has(environment) && m.has(LispObject::Symbol(symbol)),
            Frame::MacroLoaded { form, body, environment } => m.has(form) && m.has(body) && m.has(
                environment,
            ),
            Frame::MacroExpanded { form, environment } => m.has(form) && m.has(environment),
            Frame::CommandFound { function, .. } => m.has(function),
            Frame::CommandProperty { symbol, .. } => m.has(LispObject::Symbol(symbol)),
        }
    }
}

impl Step {
    /// The heap holds what the step refers to.
    pub open spec fn within(self, m: Memory) -> bool {
        match self {
            Step::Call(request, frame) => request.within(m) && frame.within(m),
            Step::Done(value) => m.has(value),
            Step::Fail(error) => error.within(m),
        }
    }
}

/// The chains of a heap are the same in a heap that extends it.
pub proof fn lemma_extended_tail(m: Memory, base: Memory, obj: LispObject, n: nat)
    requires
        base.well_formed(),
        base.has(obj),
        m.extends(base),
    ensures
        m.tail(obj, n) == base.tail(obj, n),
        m.nth_cell(obj, n) == base.nth_cell(obj, n),
        base.tail(obj, n) matches Some(t) ==> base.has(t),
        base.nth_cell(obj, n) matches Some(cell) ==> base.has(cell.car) && base.has(cell.cdr),
    decreases n,
{
    reveal(Memory::well_formed);
    if n > 0 {
        lemma_extended_tail(m, base, obj, (n - 1) as nat);
    }
    if let Some(t) = base.tail(obj, n) {
        if let LispObject::Cons(id) = t {
            if id < base.conses.len() {
                assert(base.has(base.conses[id as int].cdr));
                assert(m.conses[id as int] == base.conses[id as int]);
            }
        }
    }
}

/// So are their ends.
pub proof fn lemma_extended_end(m: Memory, base: Memory, obj: LispObject)
    requires
        base.well_formed(),
        base.has(obj),
        m.extends(base),
    ensures
        m.list_end(obj) == base.list_end(obj),
        m.list_defect(obj) == base.list_defect(obj),
        m.genuine_list(obj) == base.genuine_list(obj),
{
    reveal(Memory::list_end);
    assert forall|n: nat| m.ends_after(obj, n) == base.ends_after(obj, n) by {
        lemma_extended_tail(m, base, obj, n);
    }
    if exists|n: nat| base.ends_after(obj, n) {
        let n = choose|n: nat| base.ends_after(obj, n);
        assert(m.ends_after(obj, n));
        lemma_extended_tail(m, base, obj, n);
        crate::lists::lemma_list_end(m, obj, n);
        crate::lists::lemma_list_end(base, obj, n);
    } else {
        assert forall|n: nat| !m.ends_after(obj, n) by {
            assert(!base.ends_after(obj, n));
        }
    }
    if base.genuine_list(obj) {
        let n = choose|n: nat| base.tail(obj, n) == Some(LispObject::nil());
        lemma_extended_tail(m, base, obj, n);
    }
    if m.genuine_list(obj) {
        let n = choose|n: nat| m.tail(obj, n) == Some(LispObject::nil());
        lemma_extended_tail(m, base, obj, n);
    }
}

/// So is what `assq` finds.
pub proof fn lemma_extended_assq(m: Memory, base: Memory, key: LispObject, list: LispObject)
    requires
        base.well_formed(),
        base.has(list),
        m.extends(base),
    ensures
        m.assq(key, list) == base.assq(key, list),
{
    reveal(Memory::assq);
    assert forall|n: nat| m.assq_at(key, list, n) == base.assq_at(key, list, n) by {
        lemma_extended_tail(m, base, list, n);
        if let Some(cell) = base.nth_cell(list, n) {
            lemma_extended_tail(m, base, cell.car, 0);
        }
    }
    if exists|n: nat| base.assq_at(key, list, n) {
        let any = choose|n: nat| base.assq_at(key, list, n);
        let n = crate::lists::lemma_first_assq(base, key, list, any);
        assert(m.assq_at(key, list, n));
        assert forall|k: nat| k < n implies !m.assq_at(key, list, k) by {
            assert(!base.assq_at(key, list, k));
        }
        crate::lists::lemma_assq_found(m, key, list, n);
        crate::lists::lemma_assq_found(base, key, list, n);
        lemma_extended_tail(m, base, list, n);
    } else {
        assert forall|n: nat| !m.assq_at(key, list, n) by {
            assert(!base.assq_at(key, list, n));
        }
        lemma_extended_end(m, base, list);
    }
}

/// So is what `memq` finds.
pub proof fn lemma_extended_memq(m: Memory, base: Memory, elt: LispObject, list: LispObject)
    requires
        base.well_formed(),
        base.has(list),
        m.extends(base),
    ensures
        m.memq(elt, list) == base.memq(elt, list),
{
    reveal(Memory::memq);
    assert forall|n: nat| m.memq_at(elt, list, n) == base.memq_at(elt, list, n) by {
        lemma_extended_tail(m, base, list, n);
    }
    if exists|n: nat| base.memq_at(elt, list, n) {
        let any = choose|n: nat| base.memq_at(elt, list, n);
        let n = crate::lists::lemma_first_memq(base, elt, list, any);
        assert(m.memq_at(elt, list, n));
        assert forall|k: nat| k < n implies !m.memq_at(elt, list, k) by {
            assert(!base.memq_at(elt, list, k));
        }
        crate::lists::lemma_memq_found(m, elt, list, n);
        crate::lists::lemma_memq_found(base, elt, list, n);
        lemma_extended_tail(m, base, list, n);
    } else {
        assert forall|n: nat| !m.memq_at(elt, list, n) by {
            assert(!base.memq_at(elt, list, n));
        }
        lemma_extended_end(m, base, list);
    }
}

/// A new cell extends a well-formed heap to a well-formed heap.
pub proof fn lemma_consed(m: Memory, car: LispObject, cdr: LispObject)
    requires
        m.well_formed(),
        m.has(car),
        m.has(cdr),
        m.conses.len() < usize::MAX,
    ensures
        m.consed(car, cdr).0.well_formed(),
        m.consed(car, cdr).0.extends(m),
        m.consed(car, cdr).0.has(m.consed(car, cdr).1),
        m.consed(car, cdr).0.cons(m.consed(car, cdr).1) == Some(crate::heap::Cons { car, cdr }),
        forall|obj: LispObject| m.has(obj) ==> m.consed(car, cdr).0.has(obj),
{
    reveal(Memory::well_formed);
    let (n, obj) = m.consed(car, cdr);
    assert forall|i: int| 0 <= i < n.conses.len() implies n.has((#[trigger] n.conses[i]).car)
        && n.has(n.conses[i].cdr) by {
        if i < m.conses.len() {
            assert(n.conses[i] == m.conses[i]);
            assert(m.has(m.conses[i].car));
        }
    }
    assert forall|i: int| 0 <= i < n.symbols.len() implies n.has(
        (#[trigger] n.symbols[i]).function,
    ) by {
        assert(m.has(m.symbols[i].function));
    }
}

/// The global variables of a well-formed heap, and the symbols known by name, are on
/// the heap.
pub proof fn lemma_roots(m: Memory)
    requires
        m.well_formed(),
    ensures
        m.has(m.lexenv),
        m.has(m.purify_flag),
        STATIC_SYMBOLS <= m.symbols.len(),
        m.conses.len() <= usize::MAX,
{
    reveal(Memory::well_formed);
}

/// A cell of a well-formed heap refers to what the heap holds.
pub proof fn lemma_cell(m: Memory, obj: LispObject)
    requires
        m.well_formed(),
    ensures
        m.cons(obj) matches Some(cell) ==> m.has(obj) && m.has(cell.car) && m.has(cell.cdr),
{
    reveal(Memory::well_formed);
    if let LispObject::Cons(id) = obj {
        if id < m.conses.len() {
            assert(m.has(m.conses[id as int].car));
        }
    }
}

/// The function definition of a symbol of a well-formed heap is on the heap.
proof fn lemma_function(m: Memory, id: usize)
    requires
        m.well_formed(),
    ensures
        m.has(m.function(id)),
{
    reveal(Memory::well_formed);
    if id < m.symbols.len() {
        assert(m.has(m.symbols[id as int].function));
    }
}

/// What a search finds, or complains about, is on the heap.
pub proof fn lemma_search(m: Memory, key: LispObject, list: LispObject)
    requires
        m.well_formed(),
        m.has(list),
    ensures
        m.assq(key, list) matches Ok(found) ==> m.has(found),
        m.assq(key, list) matches Err(error) ==> error.within(m),
        m.memq(key, list) matches Err(error) ==> error.within(m),
{
    reveal(Memory::assq);
    reveal(Memory::memq);
    lemma_roots(m);
    if m.assq(key, list) is Ok && exists|n: nat| m.assq_at(key, list, n) {
        let any = choose|n: nat| m.assq_at(key, list, n);
        let n = crate::lists::lemma_first_assq(m, key, list, any);
        crate::lists::lemma_assq_found(m, key, list, n);
        lemma_extended_tail(m, m, list, n);
    }
}

/// A walk complains about what is on the heap.
proof fn lemma_next_cell(m: Memory, list: LispObject, rest: LispObject)
    requires
        m.well_formed(),
        m.has(list),
        m.has(rest),
    ensures
        m.next_cell(list, rest) matches Ok(Some(cell)) ==> m.has(cell.car) && m.has(cell.cdr),
        m.next_cell(list, rest) matches Err(error) ==> error.within(m),
{
    lemma_roots(m);
    lemma_cell(m, rest);
}

proof fn lemma_body_within(m: Memory, rest: LispObject, val: LispObject, after: After)
    requires
        m.well_formed(),
        m.has(rest),
        m.has(val),
        after.within(m),
    ensures
        m.progn_step(rest, val, after).within(m),
{
    lemma_roots(m);
    lemma_cell(m, rest);
}

proof fn lemma_setq_within(
    m: Memory,
    list: LispObject,
    rest: LispObject,
    val: LispObject,
    nargs: usize,
)
    requires
        m.well_formed(),
        m.has(list),
        m.has(rest),
        m.has(val),
    ensures
        m.setq_step(list, rest, val, nargs).within(m),
{
    lemma_roots(m);
    lemma_next_cell(m, list, rest);
    if let Ok(Some(variable)) = m.next_cell(list, rest) {
        lemma_next_cell(m, list, variable.cdr);
    }
}

proof fn lemma_with_cdr(m: Memory, obj: LispObject, cdr: LispObject)
    requires
        m.well_formed(),
        m.has(cdr),
    ensures
        m.with_cdr(obj, cdr).well_formed(),
        forall|o: LispObject| m.has(o) == m.with_cdr(obj, cdr).has(o),
{
    reveal(Memory::well_formed);
    let n = m.with_cdr(obj, cdr);
    lemma_cell(m, obj);
    assert forall|i: int| 0 <= i < n.conses.len() implies n.has((#[trigger] n.conses[i]).car)
        && n.has(n.conses[i].cdr) by {
        assert(m.has(m.conses[i].car) && m.has(m.conses[i].cdr));
    }
    assert forall|i: int| 0 <= i < n.symbols.len() implies n.has(
        (#[trigger] n.symbols[i]).function,
    ) by {
        assert(m.has(m.symbols[i].function));
    }
}

proof fn lemma_with_special(m: Memory, id: usize, special: bool)
    requires
        m.well_formed(),
    ensures
        m.with_special(id, special).well_formed(),
        m.with_special(id, special).extends(m),
        forall|o: LispObject| m.has(o) == m.with_special(id, special).has(o),
{
    reveal(Memory::well_formed);
    let n = m.with_special(id, special);
    assert forall|i: int| 0 <= i < n.conses.len() implies n.has((#[trigger] n.conses[i]).car)
        && n.has(n.conses[i].cdr) by {
        assert(m.has(m.conses[i].car) && m.has(m.conses[i].cdr));
    }
    assert forall|i: int| 0 <= i < n.symbols.len() implies n.has(
        (#[trigger] n.symbols[i]).function,
    ) by {
        assert(m.has(m.symbols[i].function));
    }
}

proof fn lemma_with_lexenv(m: Memory, lexenv: LispObject)
    requires
        m.well_formed(),
        m.has(lexenv),
    ensures
        m.with_lexenv(lexenv).well_formed(),
        m.with_lexenv(lexenv).extends(m),
        forall|o: LispObject| m.has(o) == m.with_lexenv(lexenv).has(o),
{
    reveal(Memory::well_formed);
    let n = m.with_lexenv(lexenv);
    assert forall|i: int| 0 <= i < n.conses.len() implies n.has((#[trigger] n.conses[i]).car)
        && n.has(n.conses[i].cdr) by {
        assert(m.has(m.conses[i].car) && m.has(m.conses[i].cdr));
    }
    assert forall|i: int| 0 <= i < n.symbols.len() implies n.has(
        (#[trigger] n.symbols[i]).function,
    ) by {
        assert(m.has(m.symbols[i].function));
    }
}

/// What `n` has grown from `m` by: it extends `m`, is well-formed, and differs in
/// nothing but its cells and its lexical environment.
#[verifier::opaque]
spec fn grown(n: Memory, m: Memory) -> bool {
    &&& n.well_formed()
    &&& n.extends(m)
    &&& forall|o: LispObject| m.has(o) ==> #[trigger] n.has(o)
    &&& n.symbols == m.symbols
    &&& n.strings == m.strings
    &&& n.vectorlikes == m.vectorlikes
    &&& n.purify_flag == m.purify_flag
}

proof fn lemma_grown_self(m: Memory)
    requires
        m.well_formed(),
    ensures
        grown(m, m),
{
    reveal(grown);
}

proof fn lemma_grown_more(n: Memory, m: Memory, base: Memory)
    requires
        grown(n, m),
        grown(m, base),
    ensures
        grown(n, base),
{
    reveal(grown);
    assert forall|o: LispObject| base.has(o) implies #[trigger] n.has(o) by {
        assert(m.has(o));
    }
}

proof fn lemma_grown_has(n: Memory, m: Memory, obj: LispObject)
    requires
        grown(n, m),
        m.has(obj),
    ensures
        n.well_formed(),
        n.has(obj),
{
    reveal(grown);
}

proof fn lemma_grown_consed(m: Memory, car: LispObject, cdr: LispObject)
    requires
        m.well_formed(),
        m.has(car),
        m.has(cdr),
        m.conses.len() < usize::MAX,
    ensures
        grown(m.consed(car, cdr).0, m),
        m.consed(car, cdr).0.has(m.consed(car, cdr).1),
{
    reveal(grown);
    lemma_consed(m, car, cdr);
}

proof fn lemma_extended(m: Memory, var: LispObject, val: LispObject, lexenv: LispObject)
    requires
        m.well_formed(),
        m.has(var),
        m.has(val),
        m.has(lexenv),
        m.extended(var, val, lexenv).0.conses.len() <= usize::MAX,
    ensures
        grown(m.extended(var, val, lexenv).0, m),
        m.extended(var, val, lexenv).0.lexenv == m.lexenv,
        m.extended(var, val, lexenv).0.has(m.extended(var, val, lexenv).1),
{
    lemma_roots(m);
    let (n, pair) = m.consed(var, val);
    lemma_grown_consed(m, var, val);
    lemma_grown_has(n, m, lexenv);
    lemma_grown_consed(n, pair, lexenv);
    lemma_grown_more(n.consed(pair, lexenv).0, n, m);
}

/// Bindings that a heap holds are held by every heap that extends it.
pub proof fn lemma_bindings_later(b: Bindings, m: Memory, n: Memory)
    requires
        b.within(m),
        forall|o: LispObject| m.has(o) ==> #[trigger] n.has(o),
    ensures
        b.within(n),
    decreases b,
{
    if let Bindings::Bind { rest, .. } = b {
        lemma_bindings_later(*rest, m, n);
    }
}

proof fn lemma_reversed_within(b: Bindings, tail: Bindings, m: Memory)
    requires
        b.within(m),
        tail.within(m),
    ensures
        b.reversed_onto(tail).within(m),
    decreases b,
{
    if let Bindings::Bind { var, val, rest } = b {
        lemma_reversed_within(*rest, Bindings::Bind { var, val, rest: Box::new(tail) }, m);
    }
}

proof fn lemma_let_binding_within(m: Memory, obj: LispObject)
    requires
        m.well_formed(),
        m.has(obj),
    ensures
        match m.let_binding_value(obj) {
            Ok(LetBinding::Unset { var }) => m.has(var),
            Ok(LetBinding::Form { var, form }) => m.has(var) && m.has(form),
            Err(error) => error.within(m),
        },
{
    lemma_roots(m);
    lemma_cell(m, obj);
    if let Some(front) = m.cons(obj) {
        lemma_cell(m, front.cdr);
    }
}

proof fn lemma_let_star_within(m: Memory, scope: Scope)
    requires
        m.well_formed(),
        scope.within(m),
    ensures
        m.let_star_step(scope).within(m),
{
    lemma_roots(m);
    lemma_next_cell(m, scope.varlist, scope.rest);
    lemma_body_within(m, scope.body, LispObject::nil(), After::Unbind { count: scope.count });
}

proof fn lemma_let_star_bind_within(m: Memory, scope: Scope, var: LispObject, val: LispObject)
    requires
        m.well_formed(),
        scope.within(m),
        m.has(var),
        m.has(val),
        m.let_star_bind(scope, var, val).0.conses.len() <= usize::MAX,
    ensures
        grown(m.let_star_bind(scope, var, val).0, m),
        m.let_star_bind(scope, var, val).1.within(m.let_star_bind(scope, var, val).0),
{
    lemma_roots(m);
    lemma_search(m, var, m.lexenv);
    lemma_grown_self(m);
    if m.binds_lexically(scope.lexenv, var) == Ok::<bool, LispError>(true) {
        let (n, newenv) = m.extended(var, val, m.lexenv);
        lemma_extended(m, var, val, m.lexenv);
        lemma_grown_has(n, m, scope.varlist);
        lemma_grown_has(n, m, scope.rest);
        lemma_grown_has(n, m, scope.body);
        lemma_grown_has(n, m, scope.lexenv);
        lemma_roots(n);
        if m.lexenv != scope.lexenv {
            lemma_with_lexenv(n, newenv);
            lemma_let_star_within(n.with_lexenv(newenv), scope);
            assert(grown(n.with_lexenv(newenv), n)) by {
                reveal(grown);
            }
            lemma_grown_more(n.with_lexenv(newenv), n, m);
        }
    }
}

proof fn lemma_let_bind_grows(
    m: Memory,
    lexenv: LispObject,
    pending: Bindings,
    body: LispObject,
    count: i64,
)
    ensures
        m.conses.len() <= m.let_bind(lexenv, pending, body, count).0.conses.len(),
    decreases pending,
{
    if let Bindings::Bind { var, val, rest } = pending {
        let (n, newenv) = m.extended(var, val, lexenv);
        lemma_let_bind_grows(n, newenv, *rest, body, count);
    }
}

/// The bindings `pending`, made in `m`, leave a heap that has grown, and a step within it.
spec fn let_bind_sound(
    m: Memory,
    lexenv: LispObject,
    pending: Bindings,
    body: LispObject,
    count: i64,
) -> bool {
    let (n, step) = m.let_bind(lexenv, pending, body, count);
    grown(n, m) && n.lexenv == m.lexenv && step.within(n)
}

proof fn lemma_let_bind_within(
    m: Memory,
    lexenv: LispObject,
    pending: Bindings,
    body: LispObject,
    count: i64,
)
    requires
        m.well_formed(),
        m.has(lexenv),
        pending.within(m),
        m.has(body),
        m.let_bind(lexenv, pending, body, count).0.conses.len() <= usize::MAX,
    ensures
        let_bind_sound(m, lexenv, pending, body, count),
    decreases pending,
{
    match pending {
        Bindings::Empty => {
            lemma_let_bind_stops(m, lexenv, pending, body, count);
        },
        Bindings::Bind { var, val, rest } => {
            if m.binds_lexically(lexenv, var) == Ok::<bool, LispError>(true) {
                let (n, newenv) = m.extended(var, val, lexenv);
                assert(m.let_bind(lexenv, pending, body, count) == n.let_bind(
                    newenv,
                    *rest,
                    body,
                    count,
                ));
                lemma_let_bind_grows(n, newenv, *rest, body, count);
                lemma_extended(m, var, val, lexenv);
                assert(rest.within(n)) by {
                    reveal(grown);
                    lemma_bindings_later(*rest, m, n);
                }
                lemma_grown_has(n, m, body);
                lemma_let_bind_within(n, newenv, *rest, body, count);
                lemma_grown_more(n.let_bind(newenv, *rest, body, count).0, n, m);
            } else {
                lemma_let_bind_stops(m, lexenv, pending, body, count);
            }
        },
    }
}

proof fn lemma_let_bind_stops(
    m: Memory,
    lexenv: LispObject,
    pending: Bindings,
    body: LispObject,
    count: i64,
)
    requires
        m.well_formed(),
        m.has(lexenv),
        pending.within(m),
        m.has(body),
        pending matches Bindings::Bind { var, .. } ==> m.binds_lexically(lexenv, var) != Ok::<
            bool,
            LispError,
        >(true),
    ensures
        let_bind_sound(m, lexenv, pending, body, count),
{
    lemma_roots(m);
    lemma_grown_self(m);
    match pending {
        Bindings::Empty => {
            lemma_body_within(m, body, LispObject::nil(), After::Unbind { count });
        },
        Bindings::Bind { var, val, rest } => {
            lemma_search(m, var, m.lexenv);
        },
    }
}

proof fn lemma_let_values_within(m: Memory, scope: Scope, n: nat, values: Bindings)
    requires
        m.well_formed(),
        scope.within(m),
        values.within(m),
        m.let_values(scope, n, values).0.conses.len() <= usize::MAX,
    ensures
        grown(m.let_values(scope, n, values).0, m),
        m.let_values(scope, n, values).0.lexenv == m.lexenv,
        m.let_values(scope, n, values).1.within(m.let_values(scope, n, values).0),
    decreases n,
{
    lemma_roots(m);
    lemma_grown_self(m);
    match m.cons(scope.rest) {
        Some(cell) if n > 0 => {
            lemma_cell(m, scope.rest);
            lemma_let_binding_within(m, cell.car);
            if let Ok(LetBinding::Unset { var }) = m.let_binding_value(cell.car) {
                lemma_let_values_within(
                    m,
                    Scope { rest: cell.cdr, ..scope },
                    (n - 1) as nat,
                    Bindings::Bind { var, val: LispObject::nil(), rest: Box::new(values) },
                );
            }
        },
        _ => {
            if scope.rest.is_nil() {
                lemma_reversed_within(values, Bindings::Empty, m);
                lemma_let_bind_within(
                    m,
                    scope.lexenv,
                    values.reversed_onto(Bindings::Empty),
                    scope.body,
                    scope.count,
                );
            }
        },
    }
}

proof fn lemma_closure_within(m: Memory, lambda: LispObject)
    requires
        m.well_formed(),
        m.has(lambda),
        m.closure(lambda).0.conses.len() <= usize::MAX,
    ensures
        grown(m.closure(lambda).0, m),
        m.closure(lambda).0.lexenv == m.lexenv,
        m.closure(lambda).0.has(m.closure(lambda).1),
{
    lemma_roots(m);
    let (n, captured) = m.consed(m.lexenv, lambda);
    let name = LispObject::Symbol(QCLOSURE);
    lemma_grown_consed(m, m.lexenv, lambda);
    lemma_grown_has(n, m, name);
    lemma_grown_consed(n, name, captured);
    lemma_grown_more(n.consed(name, captured).0, n, m);
}

proof fn lemma_documented_within(m: Memory, lambda: LispObject, docstring: LispObject)
    requires
        m.well_formed(),
        m.has(lambda),
        m.has(docstring),
        docstring is Str ==> m.nth_cell(lambda, 1) is Some,
        m.documented_closure(lambda, docstring).0.conses.len() <= usize::MAX,
    ensures
        grown(m.documented_closure(lambda, docstring).0, m),
        m.documented_closure(lambda, docstring).0.lexenv == m.lexenv,
        m.documented_closure(lambda, docstring).1.within(m.documented_closure(lambda, docstring).0),
{
    lemma_grown_self(m);
    lemma_roots(m);
    if docstring is Str {
        reveal_with_fuel(Memory::tail, 2);
        let arguments = m.cons(lambda)->0;
        let body = m.cons(arguments.cdr)->0;
        lemma_cell(m, lambda);
        lemma_cell(m, arguments.cdr);
        let (m1, documented) = m.consed(docstring, body.cdr);
        lemma_grown_consed(m, docstring, body.cdr);
        lemma_grown_has(m1, m, arguments.car);
        let (m2, replaced) = m1.consed(arguments.car, documented);
        lemma_grown_consed(m1, arguments.car, documented);
        lemma_grown_has(m2, m1, arguments.car);
        lemma_closure_within(m2, replaced);
        lemma_grown_more(m2, m1, m);
        lemma_grown_more(m2.closure(replaced).0, m2, m);
    }
}

/// A waiting primitive can go on as long as no cell of the heap is lost. `function`
/// alone needs more: that the lambda expression still has a body.
pub proof fn law_ready(m: Memory, n: Memory, frame: Frame, reply: LispObject)
    requires
        frame.within(m),
        m.conses.len() <= n.conses.len(),
        frame matches Frame::FunctionDoc { lambda } ==> n.nth_cell(lambda, 1) is Some,
    ensures
        n.ready(frame, reply),
{
}

/// What a step from `frame` may have changed on the way from `m` to `n`: cells are
/// only added, and of the cells that are there only `setq` changes one, in its cdr;
/// of the symbols only `defconst` changes one, in its special flag; the lexical
/// environment is changed by `let*` alone; strings, vectors and the purify flag are
/// never changed.
pub open spec fn only_changes(m: Memory, n: Memory, frame: Frame, reply: LispObject) -> bool {
    &&& match frame {
        Frame::SetqValue { .. } => exists|binding: LispObject|
            n == #[trigger] m.with_cdr(binding, reply),
        Frame::DefconstStored { .. } => n == m || exists|id: usize|
            n == #[trigger] m.with_special(id, true),
        _ => n.extends(m) && n.symbols == m.symbols,
    }
    &&& n.lexenv == m.lexenv || frame is LetStarPolled || frame is LetStarValue
    &&& n.strings == m.strings
    &&& n.vectorlikes == m.vectorlikes
    &&& n.purify_flag == m.purify_flag
}

/// Every step leaves the heap well-formed, refers to nothing that the heap does not
/// hold, loses nothing that the heap held, and changes no more than `only_changes`
/// lets it. The heap must have room for the cells that the step makes.
pub proof fn law_heap(m: Memory, frame: Frame, reply: LispObject)
    requires
        m.well_formed(),
        frame.within(m),
        m.has(reply),
        m.ready(frame, reply),
        m.resumed(frame, reply).0.conses.len() <= usize::MAX,
    ensures
        m.resumed(frame, reply).0.well_formed(),
        m.resumed(frame, reply).1.within(m.resumed(frame, reply).0),
        forall|o: LispObject| m.has(o) ==> #[trigger] m.resumed(frame, reply).0.has(o),
        only_changes(m, m.resumed(frame, reply).0, frame, reply),
{
    match frame {
        Frame::SetqValue { list, rest, sym, nargs } => {
            lemma_heap_setq(m, list, rest, sym, nargs, reply);
        },
        Frame::DefconstStored { sym, docstring } => {
            lemma_heap_defconst(m, sym, docstring);
        },
        _ => {
            lemma_heap_grows(m, frame, reply);
            reveal(grown);
        },
    }
}

proof fn lemma_heap_setq(
    m: Memory,
    list: LispObject,
    rest: LispObject,
    sym: LispObject,
    nargs: usize,
    val: LispObject,
)
    requires
        m.well_formed(),
        m.has(list),
        m.has(rest),
        m.has(sym),
        m.has(val),
    ensures
        ({
            let (n, step) = m.setq_store(list, rest, sym, nargs, val);
            &&& n.well_formed()
            &&& step.within(n)
            &&& forall|o: LispObject| m.has(o) ==> #[trigger] n.has(o)
            &&& exists|binding: LispObject| n == #[trigger] m.with_cdr(binding, val)
        }),
{
    lemma_roots(m);
    lemma_search(m, sym, m.lexenv);
    let (n, step) = m.setq_store(list, rest, sym, nargs, val);
    match m.lexical_binding(sym) {
        Ok(binding) => {
            lemma_with_cdr(m, binding, val);
            assert(n == m.with_cdr(binding, val));
            if m.cons(binding) is Some {
                lemma_setq_within(n, list, rest, val, nargs.wrapping_add(2));
            }
        },
        Err(error) => {
            assert(n == m.with_cdr(LispObject::nil(), val));
        },
    }
}

proof fn lemma_heap_defconst(m: Memory, sym: LispObject, docstring: LispObject)
    requires
        m.well_formed(),
        m.has(sym),
        m.has(docstring),
    ensures
        ({
            let (n, step) = m.defconst_stored(sym, docstring);
            &&& n.well_formed()
            &&& step.within(n)
            &&& forall|o: LispObject| m.has(o) ==> #[trigger] n.has(o)
            &&& n == m || exists|id: usize| n == #[trigger] m.with_special(id, true)
        }),
{
    lemma_roots(m);
    let (n, step) = m.defconst_stored(sym, docstring);
    if let LispObject::Symbol(id) = sym {
        lemma_with_special(m, id, true);
        assert(n == m.with_special(id, true));
    }
}

/// Where no cell and no symbol changes, the heap grows at most.
proof fn lemma_heap_grows(m: Memory, frame: Frame, reply: LispObject)
    requires
        m.well_formed(),
        frame.within(m),
        m.has(reply),
        m.ready(frame, reply),
        m.resumed(frame, reply).0.conses.len() <= usize::MAX,
        !(frame is SetqValue),
        !(frame is DefconstStored),
    ensures
        grown(m.resumed(frame, reply).0, m),
        m.resumed(frame, reply).0.lexenv == m.lexenv || frame is LetStarPolled
            || frame is LetStarValue,
        m.resumed(frame, reply).1.within(m.resumed(frame, reply).0),
{
    lemma_roots(m);
    lemma_grown_self(m);
    match frame {
        Frame::LetStarPolled { .. }
        | Frame::LetStarValue { .. }
        | Frame::LetStarBound { .. }
        | Frame::LetValue { .. }
        | Frame::LetBound { .. }
        | Frame::LetEntered { .. } => {
            lemma_heap_let(m, frame, reply);
        },
        Frame::FunctionDoc { .. }
        | Frame::MacroPolled { .. }
        | Frame::MacroLoaded { .. }
        | Frame::MacroExpanded { .. }
        | Frame::CommandFound { .. }
        | Frame::CommandProperty { .. } => {
            lemma_heap_calls(m, frame, reply);
        },
        Frame::Or { .. }
        | Frame::And { .. }
        | Frame::If { .. }
        | Frame::Cond { .. }
        | Frame::Progn { .. }
        | Frame::Prog1 { .. }
        | Frame::Prog2 { .. }
        | Frame::WhilePolled { .. }
        | Frame::SetqStored { .. } => {
            lemma_heap_control(m, frame, reply);
        },
        _ => {},
    }
}

proof fn lemma_heap_control(m: Memory, frame: Frame, reply: LispObject)
    requires
        m.well_formed(),
        frame.within(m),
        m.has(reply),
        m.ready(frame, reply),
        m.resumed(frame, reply).0.conses.len() <= usize::MAX,
        frame is Or || frame is And || frame is If || frame is Cond || frame is Progn
            || frame is Prog1 || frame is Prog2 || frame is WhilePolled || frame is SetqStored,
    ensures
        grown(m.resumed(frame, reply).0, m),
        m.resumed(frame, reply).0.lexenv == m.lexenv || frame is LetStarPolled
            || frame is LetStarValue,
        m.resumed(frame, reply).1.within(m.resumed(frame, reply).0),
{
    lemma_roots(m);
    lemma_grown_self(m);
    match frame {
        Frame::Or { rest } => {
            lemma_cell(m, rest);
        },
        Frame::And { rest } => {
            lemma_cell(m, rest);
        },
        Frame::If { cell } => {
            lemma_cell(m, cell);
            let branches = m.cons(cell)->0.cdr;
            lemma_cell(m, branches);
            if let Some(b) = m.cons(branches) {
                lemma_body_within(m, b.cdr, LispObject::nil(), After::Value);
            }
        },
        Frame::Cond { clause, rest } => {
            lemma_cell(m, clause);
            lemma_cell(m, rest);
            if let Some(cell) = m.cons(rest) {
                lemma_cell(m, cell.car);
            }
            lemma_body_within(m, m.cons(clause)->0.cdr, LispObject::nil(), After::Value);
        },
        Frame::Progn { rest, after } => {
            lemma_body_within(m, rest, reply, after);
        },
        Frame::Prog1 { body } => {
            lemma_body_within(m, body, LispObject::nil(), After::Constant { value: reply });
        },
        Frame::Prog2 { rest } => {
            lemma_cell(m, rest);
        },
        Frame::WhilePolled { test, body } => {
            lemma_body_within(m, body, LispObject::nil(), After::Again { test, body });
        },
        Frame::SetqStored { list, rest, val, nargs } => {
            lemma_setq_within(m, list, rest, val, nargs);
        },
        _ => {},
    }
}

proof fn lemma_heap_let(m: Memory, frame: Frame, reply: LispObject)
    requires
        m.well_formed(),
        frame.within(m),
        m.has(reply),
        m.ready(frame, reply),
        m.resumed(frame, reply).0.conses.len() <= usize::MAX,
        frame is LetStarPolled || frame is LetStarValue || frame is LetStarBound
            || frame is LetValue || frame is LetBound || frame is LetEntered,
    ensures
        grown(m.resumed(frame, reply).0, m),
        m.resumed(frame, reply).0.lexenv == m.lexenv || frame is LetStarPolled
            || frame is LetStarValue,
        m.resumed(frame, reply).1.within(m.resumed(frame, reply).0),
{
    lemma_roots(m);
    lemma_grown_self(m);
    match frame {
        Frame::LetStarPolled { scope, binding } => {
            lemma_let_binding_within(m, binding);
            if let Ok(LetBinding::Unset { var }) = m.let_binding_value(binding) {
                lemma_let_star_bind_within(m, scope, var, LispObject::nil());
            }
        },
        Frame::LetStarValue { scope, var } => {
            lemma_let_star_bind_within(m, scope, var, reply);
        },
        Frame::LetStarBound { scope } => {
            lemma_let_star_within(m, scope);
        },
        Frame::LetValue { scope, var, values } => {
            let known = Bindings::Bind { var, val: reply, rest: Box::new(values) };
            if let Some((n, _)) = m.list_end(scope.rest) {
                lemma_let_values_within(m, scope, n, known);
            }
        },
        Frame::LetBound { lexenv, pending, body, count } => {
            lemma_let_bind_within(m, lexenv, pending, body, count);
        },
        Frame::LetEntered { body, count } => {
            lemma_body_within(m, body, LispObject::nil(), After::Unbind { count });
        },
        _ => {},
    }
}

proof fn lemma_heap_calls(m: Memory, frame: Frame, reply: LispObject)
    requires
        m.well_formed(),
        frame.within(m),
        m.has(reply),
        m.ready(frame, reply),
        m.resumed(frame, reply).0.conses.len() <= usize::MAX,
        frame is FunctionDoc || frame is MacroPolled || frame is MacroLoaded
            || frame is MacroExpanded || frame is CommandFound || frame is CommandProperty,
    ensures
        grown(m.resumed(frame, reply).0, m),
        m.resumed(frame, reply).0.lexenv == m.lexenv || frame is LetStarPolled
            || frame is LetStarValue,
        m.resumed(frame, reply).1.within(m.resumed(frame, reply).0),
{
    lemma_roots(m);
    lemma_grown_self(m);
    match frame {
        Frame::FunctionDoc { lambda } => {
            lemma_documented_within(m, lambda, reply);
        },
        Frame::MacroPolled { form, body, environment, symbol } => {
            lemma_search(m, LispObject::Symbol(symbol), environment);
            lemma_function(m, symbol);
            if let Ok(found) = m.assq(LispObject::Symbol(symbol), environment) {
                lemma_cell(m, found);
            }
        },
        Frame::MacroLoaded { form, body, environment } => {
            lemma_cell(m, reply);
        },
        Frame::MacroExpanded { form, environment } => {
            lemma_cell(m, reply);
        },
        Frame::CommandFound { function, for_call_interactively } => {
            lemma_command_within(m, function, for_call_interactively, false);
        },
        Frame::CommandProperty { symbol, for_call_interactively, has_property } => {
            lemma_function(m, symbol);
            lemma_command_within(
                m,
                m.function(symbol),
                for_call_interactively,
                has_property || !reply.is_nil(),
            );
        },
        _ => {},
    }
}

proof fn lemma_nthcdr_within(m: Memory, obj: LispObject, n: nat)
    requires
        m.well_formed(),
        m.has(obj),
    ensures
        m.nthcdr(obj, n) matches Ok(rest) ==> m.has(rest),
        m.nthcdr(obj, n) matches Err(error) ==> error.within(m),
    decreases n,
{
    lemma_roots(m);
    if n > 0 {
        lemma_nthcdr_within(m, obj, (n - 1) as nat);
        if let Ok(rest) = m.nthcdr(obj, (n - 1) as nat) {
            lemma_cell(m, rest);
        }
    }
}

proof fn lemma_interactive_within(m: Memory, obj: LispObject, n: nat)
    requires
        m.well_formed(),
        m.has(obj),
    ensures
        m.has_interactive(m.nthcdr(obj, n)) matches Err(error) ==> error.within(m),
{
    lemma_nthcdr_within(m, obj, n);
    if let Ok(forms) = m.nthcdr(obj, n) {
        lemma_search(m, LispObject::Symbol(QINTERACTIVE), forms);
    }
}

proof fn lemma_command_within(m: Memory, fun: LispObject, interactively: bool, property: bool)
    requires
        m.well_formed(),
        m.has(fun),
    ensures
        m.command_step(fun, interactively, property).within(m),
{
    lemma_roots(m);
    lemma_list_command_within(m, fun);
}

proof fn lemma_list_command_within(m: Memory, fun: LispObject)
    requires
        m.well_formed(),
    ensures
        m.list_command(fun) matches Some(Err(error)) ==> error.within(m),
{
    lemma_roots(m);
    lemma_cell(m, fun);
    if let Some(cell) = m.cons(fun) {
        lemma_interactive_within(m, cell.cdr, 1);
        lemma_interactive_within(m, cell.cdr, 2);
        lemma_nthcdr_within(m, cell.cdr, 2);
    }
}

/// The first step of every primitive that leaves the heap as it is refers to nothing
/// that the heap does not hold.
pub proof fn law_heap_begin(m: Memory, args: LispObject, environment: LispObject, count: i64)
    requires
        m.well_formed(),
        m.has(args),
        m.has(environment),
    ensures
        m.or_step(args).within(m),
        m.and_step(args, LispObject::t()).within(m),
        m.lisp_if(args).within(m),
        m.cond_step(args).within(m),
        m.progn(args).within(m),
        m.prog_ignore(args).within(m),
        m.prog1(args).within(m),
        m.prog2(args).within(m),
        m.setq_step(args, args, args, 0).within(m),
        m.defconst(args).within(m),
        m.macroexpand(args, environment).within(m),
        Memory::commandp(args, false).within(m),
        Memory::commandp(args, true).within(m),
        Memory::application(environment, args).within(m),
        m.cons(args) matches Some(cell) ==> Step::Call(
            Request::Eval { form: cell.car },
            Frame::WhileTest { test: cell.car, body: cell.cdr },
        ).within(m),
        m.cons(args) matches Some(cell) ==> m.let_star_step(
            Scope {
                varlist: cell.car,
                rest: cell.car,
                body: cell.cdr,
                lexenv: m.lexenv,
                count,
            },
        ).within(m),
{
    lemma_roots(m);
    lemma_cell(m, args);
    lemma_body_within(m, args, LispObject::nil(), After::Value);
    lemma_body_within(
        m,
        args,
        LispObject::nil(),
        After::Constant { value: LispObject::nil() },
    );
    lemma_setq_within(m, args, args, args, 0);
    if let Some(cell) = m.cons(args) {
        lemma_cell(m, cell.car);
        lemma_cell(m, cell.cdr);
        if let Ok(doc) = m.cdr(cell.cdr) {
            lemma_cell(m, doc);
        }
        lemma_let_star_within(
            m,
            Scope {
                varlist: cell.car,
                rest: cell.car,
                body: cell.cdr,
                lexenv: m.lexenv,
                count,
            },
        );
    }
}

/// So do the first steps of `let` and `function`, and what they make of a
/// well-formed heap is a well-formed heap in which no cell has changed.
pub proof fn law_heap_begin_grows(m: Memory, args: LispObject, count: i64)
    requires
        m.well_formed(),
        m.has(args),
    ensures
        ({
            let (n, step) = m.quote_function(args);
            n.conses.len() <= usize::MAX ==> n.well_formed() && n.extends(m) && step.within(n)
        }),
        m.cons(args) matches Some(cell) ==> ({
            let (n, step) = m.let_step(
                Scope {
                    varlist: cell.car,
                    rest: cell.car,
                    body: cell.cdr,
                    lexenv: m.lexenv,
                    count,
                },
                Bindings::Empty,
            );
            n.conses.len() <= usize::MAX ==> n.well_formed() && n.extends(m) && step.within(n)
        }),
{
    lemma_roots(m);
    lemma_cell(m, args);
    lemma_grown_self(m);
    if let Some(cell) = m.cons(args) {
        lemma_quote_function_within(m, args);
        let scope = Scope {
            varlist: cell.car,
            rest: cell.car,
            body: cell.cdr,
            lexenv: m.lexenv,
            count,
        };
        if let Some((len, _)) = m.list_end(scope.rest) {
            if m.let_values(scope, len, Bindings::Empty).0.conses.len() <= usize::MAX {
                lemma_let_values_within(m, scope, len, Bindings::Empty);
            }
        }
    }
    reveal(grown);
}

proof fn lemma_quote_function_within(m: Memory, args: LispObject)
    requires
        m.well_formed(),
        m.cons(args) is Some,
    ensures
        ({
            let (n, step) = m.quote_function(args);
            n.conses.len() <= usize::MAX ==> grown(n, m) && step.within(n)
        }),
{
    lemma_roots(m);
    lemma_cell(m, args);
    lemma_grown_self(m);
    let cell = m.cons(args)->0;
    lemma_cell(m, cell.car);
    if let Some(quoted) = m.cons(cell.car) {
        if m.closure(quoted.cdr).0.conses.len() <= usize::MAX {
            lemma_closure_within(m, quoted.cdr);
        }
        lemma_extended_tail(m, m, quoted.cdr, 1);
        if let Some(body) = m.nth_cell(quoted.cdr, 1) {
            lemma_cell(m, body.car);
            if let Some(first) = m.cons(body.car) {
                lemma_cell(m, first.cdr);
            }
        }
    }
}

/// So does `autoload`.
pub proof fn law_heap_autoload(
    m: Memory,
    symbol: LispSymbolRef,
    file: LispStringRef,
    docstring: LispObject,
    interactive: LispObject,
    ty: LispObject,
)
    requires
        m.well_formed(),
        m.has(symbol.as_lisp_obj()),
        m.has(file.as_lisp_obj()),
        m.has(docstring),
        m.has(interactive),
        m.has(ty),
        m.conses.len() + 5 <= usize::MAX,
    ensures
        ({
            let (n, step) = m.autoload(symbol, file, docstring, interactive, ty);
            n.well_formed() && n.extends(m) && step.within(n)
        }),
{
    lemma_roots(m);
    let (m1, l1) = m.consed(ty, LispObject::nil());
    lemma_consed(m, ty, LispObject::nil());
    let (m2, l2) = m1.consed(interactive, l1);
    lemma_consed(m1, interactive, l1);
    let (m3, l3) = m2.consed(m.autoload_docstring(symbol, docstring), l2);
    lemma_consed(m2, m.autoload_docstring(symbol, docstring), l2);
    let (m4, l4) = m3.consed(file.as_lisp_obj(), l3);
    lemma_consed(m3, file.as_lisp_obj(), l3);
    lemma_consed(m4, LispObject::Symbol(QAUTOLOAD), l4);
}

/// An error in the form in which Lisp programs handle it is on a well-formed heap, in
/// which no cell has changed.
pub proof fn law_heap_signal(m: Memory, error: LispError)
    requires
        m.well_formed(),
        error.within(m),
        m.conses.len() + 2 <= usize::MAX,
        m.strings.len() < usize::MAX,
    ensures
        ({
            let (n, signal) = m.signal(error);
            n.well_formed() && n.extends(m) && n.has(signal.condition) && n.has(signal.data)
        }),
{
    lemma_roots(m);
    match error {
        LispError::WrongType { predicate, value } => {
            lemma_list2(m, LispObject::Symbol(predicate), value);
        },
        LispError::WrongNumberOfArguments { function, count } => {
            lemma_list2(m, LispObject::Symbol(function), LispObject::Fixnum(count as i64));
        },
        LispError::CircularList { list } => {
            lemma_consed(m, list, LispObject::nil());
        },
        LispError::TooManyArguments => {
            lemma_error_signal(m, "Too many arguments"@, LispObject::nil());
        },
        LispError::LetBinding { binding } => {
            lemma_error_signal(m, "`let' bindings can have only one value-form"@, binding);
        },
    }
}

proof fn lemma_list2(m: Memory, a: LispObject, b: LispObject)
    requires
        m.well_formed(),
        m.has(a),
        m.has(b),
        m.conses.len() + 2 <= usize::MAX,
    ensures
        ({
            let (n, list) = m.list2(a, b);
            n.well_formed() && n.extends(m) && n.has(list)
        }),
{
    lemma_roots(m);
    lemma_consed(m, b, LispObject::nil());
    let (n, tail) = m.list1(b);
    lemma_consed(n, a, tail);
}

proof fn lemma_error_signal(m: Memory, msg: Seq<char>, arg: LispObject)
    requires
        m.well_formed(),
        m.has(arg),
        m.conses.len() + 2 <= usize::MAX,
        m.strings.len() < usize::MAX,
    ensures
        ({
            let (n, signal) = m.error_signal(msg, arg);
            n.well_formed() && n.extends(m) && n.has(signal.condition) && n.has(signal.data)
        }),
{
    lemma_roots(m);
    lemma_consed(m, arg, LispObject::nil());
    let (m1, rest) = if m.genuine_list(arg) {
        (m, arg)
    } else {
        m.list1(arg)
    };
    law_heap_edits(m1, LispObject::nil(), LispObject::nil(), 0, false, msg);
    let (m2, text) = m1.with_string(msg);
    lemma_consed(m2, text, rest);
}

/// Changing the cdr of a cell, the definition or the special flag of a symbol, or the
/// lexical environment keeps a heap well-formed as long as the new value is on the
/// heap; so does making a string.
pub proof fn law_heap_edits(
    m: Memory,
    cell: LispObject,
    val: LispObject,
    id: usize,
    special: bool,
    text: Seq<char>,
)
    requires
        m.well_formed(),
        m.has(val),
    ensures
        m.with_cdr(cell, val).well_formed(),
        m.with_function(id, val).well_formed(),
        m.with_special(id, special).well_formed(),
        m.with_lexenv(val).well_formed(),
        m.strings.len() < usize::MAX ==> m.with_string(text).0.well_formed()
            && m.with_string(text).0.extends(m) && m.with_string(text).0.has(
            m.with_string(text).1,
        ) && forall|o: LispObject| m.has(o) ==> #[trigger] m.with_string(text).0.has(o),
{
    lemma_with_cdr(m, cell, val);
    lemma_with_special(m, id, special);
    lemma_with_lexenv(m, val);
    reveal(Memory::well_formed);
    let defined = m.with_function(id, val);
    let written = m.with_string(text).0;
    assert forall|i: int| 0 <= i < m.conses.len() implies defined.has(
        (#[trigger] defined.conses[i]).car,
    ) && defined.has(defined.conses[i].cdr) by {
        assert(m.has(m.conses[i].car) && m.has(m.conses[i].cdr));
    }
    assert forall|i: int| 0 <= i < m.symbols.len() implies defined.has(
        (#[trigger] defined.symbols[i]).function,
    ) by {
        assert(m.has(m.symbols[i].function));
    }
    assert forall|i: int| 0 <= i < m.conses.len() implies written.has(
        (#[trigger] written.conses[i]).car,
    ) && written.has(written.conses[i].cdr) by {
        assert(m.has(m.conses[i].car) && m.has(m.conses[i].cdr));
    }
    assert forall|i: int| 0 <= i < m.symbols.len() implies written.has(
        (#[trigger] written.symbols[i]).function,
    ) by {
        assert(m.has(m.symbols[i].function));
    }
}

} // verus!

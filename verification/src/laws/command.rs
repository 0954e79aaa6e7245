//! Commands and autoloads over several calls.
use vstd::prelude::*;
use crate::command::COMPILED_INTERACTIVE;
use crate::errors::LispError;
use crate::heap::{Cons, Memory, Vectorlike};
use crate::machine::{Frame, Request, Step};
use crate::object::{
    LispObject, LispStringRef, LispSymbolRef, QINTERACTIVE, QINTERACTIVE_FORM, QLAMBDA, QNIL,
};
use crate::trace::Answer;

verus! {

/// The place `i` of a chain of symbols: the symbol number `i`, or the `end` after the
/// last one.
pub open spec fn link(names: Seq<usize>, end: LispObject, i: int) -> LispObject {
    if i < names.len() {
        LispObject::Symbol(names[i])
    } else {
        end
    }
}

impl Memory {
    /// The chain that begins with `function` goes over the symbols `names`, each the
    /// function definition of the one before, to the function `end`; that is nil if the
    /// last symbol has no function definition.
    pub open spec fn chain(
        self,
        function: LispObject,
        names: Seq<usize>,
        end: LispObject,
    ) -> bool {
        &&& function == link(names, end, 0)
        &&& forall|i: int|
            0 <= i < names.len() ==> (#[trigger] names[i]) != QNIL && self.function(names[i])
                == link(names, end, i + 1)
        &&& end is Symbol ==> end.is_nil()
    }
}

/// A symbol has been answered with a non-nil `interactive-form` property.
pub open spec fn has_property(properties: Seq<Answer>) -> bool {
    exists|k: int| 0 <= k < properties.len() && !(#[trigger] properties[k]).reply.is_nil()
}

/// `commandp` asks for the function at the end of the chain of symbols. If there is
/// none, the answer is nil. If there is one, the `interactive-form` property of each
/// symbol of the chain is asked for, in order, and the function at the end decides,
/// given whether one of the properties was non-nil.
pub proof fn law_commandp(
    function: LispObject,
    for_call_interactively: bool,
    names: Seq<usize>,
    end: LispObject,
    found: Answer,
    properties: Seq<Answer>,
)
    requires
        found.memory.chain(function, names, end),
        found.reply == end,
        forall|k: int|
            0 <= k < properties.len() ==> (#[trigger] properties[k]).memory.chain(
                function,
                names,
                end,
            ),
        properties.len() <= names.len(),
    ensures
        ({
            let start = Memory::commandp(function, for_call_interactively);
            let n = properties.len() as int;
            let here = if n > 0 {
                properties.last().memory
            } else {
                found.memory
            };
            start.after(seq![found] + properties) == if end.is_nil() {
                Step::Done(LispObject::nil())
            } else if n < names.len() {
                Step::Call(
                    Request::Get {
                        sym: LispObject::Symbol(names[n]),
                        prop: LispObject::Symbol(QINTERACTIVE_FORM),
                    },
                    Frame::CommandProperty {
                        symbol: names[n],
                        for_call_interactively,
                        has_property: has_property(properties),
                    },
                )
            } else {
                decided(
                    here.command_definition(end, for_call_interactively, has_property(properties)),
                )
            }
        }),
    decreases properties.len(),
{
    let start = Memory::commandp(function, for_call_interactively);
    let answers = seq![found] + properties;
    if properties.len() == 0 {
        crate::trace::lemma_after_first(start, answers);
        assert(answers.drop_first() =~= Seq::<Answer>::empty());
        if names.len() > 0 {
            assert(names[0] != QNIL);
        }
    } else {
        let before = properties.drop_last();
        let last = properties[properties.len() - 1];
        assert(answers.drop_last() =~= seq![found] + before);
        assert(answers.last() == last);
        assert forall|k: int| 0 <= k < before.len() implies (#[trigger] before[k]).memory.chain(
            function,
            names,
            end,
        ) by {
            assert(before[k] == properties[k]);
        }
        law_commandp(function, for_call_interactively, names, end, found, before);
        lemma_has_property(properties);
        assert(last.memory.chain(function, names, end));
        let i = before.len() as int;
        assert(names[i] != QNIL);
        assert(last.memory.function(names[i]) == link(names, end, i + 1));
    }
}

/// The step with which `commandp` ends.
pub open spec fn decided(command: Result<bool, LispError>) -> Step {
    match command {
        Ok(command) => Step::Done(LispObject::from_bool(command)),
        Err(error) => Step::Fail(error),
    }
}

/// Whether a property was found is known from the last answer and those before it.
proof fn lemma_has_property(properties: Seq<Answer>)
    requires
        properties.len() > 0,
    ensures
        has_property(properties) == (has_property(properties.drop_last())
            || !properties.last().reply.is_nil()),
{
    let before = properties.drop_last();
    if has_property(before) {
        let k = choose|k: int| 0 <= k < before.len() && !(#[trigger] before[k]).reply.is_nil();
        assert(!properties[k].reply.is_nil());
    }
    if !properties.last().reply.is_nil() {
        assert(!properties[properties.len() - 1].reply.is_nil());
    }
    if has_property(properties) && properties.last().reply.is_nil() {
        let k = choose|k: int|
            0 <= k < properties.len() && !(#[trigger] properties[k]).reply.is_nil();
        assert(!before[k].reply.is_nil());
    }
}

/// The answers `replies`, all of which come in the memory `m`.
pub open spec fn answered(m: Memory, replies: Seq<LispObject>) -> Seq<Answer> {
    Seq::new(replies.len(), |i: int| Answer { memory: m, reply: replies[i] })
}

/// A symbol satisfies `commandp` if its function definition does; and where the symbol
/// itself has no `interactive-form` property, only if it does. `properties` are those
/// of the symbols of the chain, the first one that of the symbol itself.
pub proof fn law_commandp_symbol(
    m: Memory,
    names: Seq<usize>,
    end: LispObject,
    for_call_interactively: bool,
    properties: Seq<LispObject>,
)
    requires
        names.len() > 0,
        m.chain(LispObject::Symbol(names[0]), names, end),
        properties.len() == names.len(),
    ensures
        ({
            let of_symbol = Memory::commandp(
                LispObject::Symbol(names[0]),
                for_call_interactively,
            ).after(answered(m, seq![end] + properties));
            let of_definition = Memory::commandp(
                m.function(names[0]),
                for_call_interactively,
            ).after(answered(m, seq![end] + properties.drop_first()));
            &&& of_definition == Step::Done(LispObject::t()) ==> of_symbol == of_definition
            &&& properties[0].is_nil() ==> of_symbol == of_definition
        }),
{
    let found = Answer { memory: m, reply: end };
    let whole = answered(m, properties);
    let rest = answered(m, properties.drop_first());
    let later = names.drop_first();
    assert(answered(m, seq![end] + properties) =~= seq![found] + whole);
    assert(answered(m, seq![end] + properties.drop_first()) =~= seq![found] + rest);
    assert(names[0] != QNIL);
    assert forall|i: int| 0 <= i < later.len() implies (#[trigger] later[i]) != QNIL && m.function(
        later[i],
    ) == link(later, end, i + 1) by {
        assert(later[i] == names[i + 1]);
        assert(link(names, end, i + 2) == link(later, end, i + 1));
    }
    assert(m.chain(m.function(names[0]), later, end));
    law_commandp(LispObject::Symbol(names[0]), for_call_interactively, names, end, found, whole);
    law_commandp(m.function(names[0]), for_call_interactively, later, end, found, rest);
    assert(has_property(whole) == (has_property(rest) || !properties[0].is_nil())) by {
        if has_property(rest) {
            let k = choose|k: int| 0 <= k < rest.len() && !(#[trigger] rest[k]).reply.is_nil();
            assert(!whole[k + 1].reply.is_nil());
        }
        if !properties[0].is_nil() {
            assert(!whole[0].reply.is_nil());
        }
        if has_property(whole) && properties[0].is_nil() {
            let k = choose|k: int| 0 <= k < whole.len() && !(#[trigger] whole[k]).reply.is_nil();
            assert(!rest[k - 1].reply.is_nil());
        }
    }
}

/// What is a command for an interactive call is a command without that restriction,
/// and the two answers differ for keyboard macros alone: for strings and vectors.
pub proof fn law_commandp_restricted(
    function: LispObject,
    names: Seq<usize>,
    end: LispObject,
    found: Answer,
    properties: Seq<Answer>,
)
    requires
        found.memory.chain(function, names, end),
        found.reply == end,
        forall|k: int|
            0 <= k < properties.len() ==> (#[trigger] properties[k]).memory.chain(
                function,
                names,
                end,
            ),
        properties.len() == names.len(),
    ensures
        ({
            let here = if properties.len() > 0 {
                properties.last().memory
            } else {
                found.memory
            };
            let answers = seq![found] + properties;
            let restricted = Memory::commandp(function, true).after(answers);
            let free = Memory::commandp(function, false).after(answers);
            &&& restricted == Step::Done(LispObject::t()) ==> free == restricted
            &&& restricted != free <==> end is Str || here.vectorlike(end) == Some(
                Vectorlike::Vector,
            )
        }),
{
    law_commandp(function, true, names, end, found, properties);
    law_commandp(function, false, names, end, found, properties);
}

/// A non-nil `interactive-form` property on a symbol of the chain makes a command of
/// every function but a keyboard macro: a built-in function, a byte code object, a
/// lambda expression, a closure or an autoload.
pub proof fn law_commandp_property(
    function: LispObject,
    for_call_interactively: bool,
    names: Seq<usize>,
    end: LispObject,
    found: Answer,
    properties: Seq<Answer>,
)
    requires
        found.memory.chain(function, names, end),
        found.reply == end,
        forall|k: int|
            0 <= k < properties.len() ==> (#[trigger] properties[k]).memory.chain(
                function,
                names,
                end,
            ),
        properties.len() == names.len(),
        has_property(properties),
        ({
            let m = properties.last().memory;
            ||| m.vectorlike(end) matches Some(kind) && kind != Vectorlike::Vector
            ||| m.list_command(end) matches Some(Ok(_))
        }),
    ensures
        Memory::commandp(function, for_call_interactively).after(seq![found] + properties)
            == Step::Done(LispObject::t()),
{
    law_commandp(function, for_call_interactively, names, end, found, properties);
}

/// Strings and vectors are commands, as keyboard macros, unless FOR-CALL-INTERACTIVELY
/// says that they are not. A built-in function is a command if it has an interactive
/// spec, a byte code object if it is long enough to have one. A number, or any other
/// object that is no function, is no command.
pub proof fn law_command_kinds(m: Memory, fun: LispObject, for_call_interactively: bool)
    ensures
        fun is Str ==> m.command_definition(fun, for_call_interactively, false) == Ok::<
            bool,
            LispError,
        >(!for_call_interactively),
        m.vectorlike(fun) matches Some(kind) ==> m.command_definition(
            fun,
            for_call_interactively,
            false,
        ) == Ok::<bool, LispError>(
            match kind {
                Vectorlike::Vector => !for_call_interactively,
                Vectorlike::Subr { interactive } => interactive,
                Vectorlike::Pseudovector { compiled, size } => compiled && size
                    > COMPILED_INTERACTIVE,
            },
        ),
        fun is Fixnum || fun is Other || fun.is_nil() ==> m.command_definition(
            fun,
            for_call_interactively,
            false,
        ) == Ok::<bool, LispError>(false),
{
}

/// A lambda expression is a command if and only if one of the forms of its body is a
/// call to `interactive`.
pub proof fn law_command_lambda(
    m: Memory,
    fun: LispObject,
    lambda: LispObject,
    arguments: LispObject,
    spine: Seq<LispObject>,
    items: Seq<LispObject>,
    for_call_interactively: bool,
)
    requires
        m.cons(fun) == Some(Cons { car: LispObject::Symbol(QLAMBDA), cdr: lambda }),
        m.cons(lambda) == Some(Cons { car: arguments, cdr: spine[0] }),
        m.holds(spine, items),
        spine.last().is_nil(),
    ensures
        m.command_definition(fun, for_call_interactively, false) == Ok::<bool, LispError>(
            m.calls_interactive(items),
        ),
{
    reveal_with_fuel(Memory::nthcdr, 2);
    lemma_interactive(m, spine, items);
}

/// So is a closure.
pub proof fn law_command_closure(
    m: Memory,
    fun: LispObject,
    environment: LispObject,
    lambda: LispObject,
    arguments: LispObject,
    spine: Seq<LispObject>,
    items: Seq<LispObject>,
    for_call_interactively: bool,
)
    requires
        m.closes(fun, environment, lambda),
        m.cons(lambda) == Some(Cons { car: arguments, cdr: spine[0] }),
        m.holds(spine, items),
        spine.last().is_nil(),
    ensures
        m.command_definition(fun, for_call_interactively, false) == Ok::<bool, LispError>(
            m.calls_interactive(items),
        ),
{
    reveal_with_fuel(Memory::nthcdr, 3);
    lemma_interactive(m, spine, items);
}

impl Memory {
    /// `form` is a call to `interactive`.
    pub open spec fn is_interactive_call(self, form: LispObject) -> bool {
        self.cons(form) matches Some(call) && call.car == LispObject::Symbol(QINTERACTIVE)
    }

    /// One of the forms `items` is a call to `interactive`.
    pub open spec fn calls_interactive(self, items: Seq<LispObject>) -> bool {
        exists|i: int| 0 <= i < items.len() && self.is_interactive_call(#[trigger] items[i])
    }
}

proof fn lemma_interactive(m: Memory, spine: Seq<LispObject>, items: Seq<LispObject>)
    requires
        m.holds(spine, items),
        spine.last().is_nil(),
    ensures
        m.has_interactive(Ok(spine[0])) == Ok::<bool, LispError>(m.calls_interactive(items)),
{
    let key = LispObject::Symbol(QINTERACTIVE);
    crate::trace::lemma_holds_end(m, spine, items, 0);
    if m.calls_interactive(items) {
        let i = choose|i: int| 0 <= i < items.len() && m.is_interactive_call(#[trigger] items[i]);
        crate::trace::lemma_holds_tail(m, spine, items, 0, i as nat);
        assert(m.cons(spine[i]) is Some);
        assert(m.assq_at(key, spine[0], i as nat));
        let first = crate::lists::lemma_first_assq(m, key, spine[0], i as nat);
        crate::lists::lemma_assq_found(m, key, spine[0], first);
    } else {
        assert forall|n: nat| !m.assq_at(key, spine[0], n) by {
            if n < items.len() {
                crate::trace::lemma_holds_tail(m, spine, items, 0, n);
                assert(m.cons(spine[n as int]) == Some(
                    Cons { car: items[n as int], cdr: spine[n as int + 1] },
                ));
            } else if m.tail(spine[0], n) is Some {
                crate::trace::lemma_holds_tail(m, spine, items, 0, items.len());
                if n > items.len() {
                    crate::lists::lemma_tail_shorter(m, spine[0], items.len(), n);
                }
            }
        }
        crate::lists::lemma_assq_missing(m, key, spine[0]);
    }
}

/// A definition made by `autoload` says that the function is still to be loaded, and
/// is a command if and only if the fourth argument is non-nil.
pub proof fn law_autoload_command(
    m: Memory,
    symbol: LispSymbolRef,
    file: LispStringRef,
    docstring: LispObject,
    interactive: LispObject,
    ty: LispObject,
    for_call_interactively: bool,
)
    requires
        m.function(symbol.id).is_nil() || m.is_autoload(m.function(symbol.id)),
        m.conses.len() + 5 <= usize::MAX,
    ensures
        ({
            let (n, step) = m.autoload(symbol, file, docstring, interactive, ty);
            &&& n.extends(m)
            &&& step matches Step::Call(Request::Defalias { sym, def, .. }, Frame::Return)
            &&& sym == symbol.as_lisp_obj()
            &&& n.is_autoload(def)
            &&& n.command_definition(def, for_call_interactively, false) == Ok::<bool, LispError>(
                !interactive.is_nil(),
            )
        }),
{
    reveal_with_fuel(Memory::nthcdr, 3);
}

/// Once the definition made by `autoload` is recorded, another `autoload` of the same
/// function takes its place; a definition of any other kind is kept, and nothing
/// happens.
pub proof fn law_autoload_again(
    m: Memory,
    symbol: LispSymbolRef,
    file: LispStringRef,
    docstring: LispObject,
    interactive: LispObject,
    ty: LispObject,
    other_file: LispStringRef,
    other: LispObject,
)
    requires
        symbol.id < m.symbols.len(),
        m.function(symbol.id).is_nil() || m.is_autoload(m.function(symbol.id)),
        m.conses.len() + 5 <= usize::MAX,
    ensures
        ({
            let (n, step) = m.autoload(symbol, file, docstring, interactive, ty);
            &&& step matches Step::Call(Request::Defalias { def, .. }, _)
            &&& n.with_function(symbol.id, def).autoload(
                symbol,
                other_file,
                docstring,
                interactive,
                ty,
            ).1 matches Step::Call(Request::Defalias { sym, .. }, Frame::Return)
            &&& sym == symbol.as_lisp_obj()
        }),
        !other.is_nil() && !m.is_autoload(other) ==> m.with_function(symbol.id, other).autoload(
            symbol,
            other_file,
            docstring,
            interactive,
            ty,
        ) == (m.with_function(symbol.id, other), Step::Done(LispObject::nil())),
{
    law_autoload_command(m, symbol, file, docstring, interactive, ty, false);
}

/// While the program is being dumped, functions that are given 0 for documentation
/// get a number each, and no two of them the same.
pub proof fn law_autoload_docstring(m: Memory, a: LispSymbolRef, b: LispSymbolRef)
    requires
        !m.purify_flag.is_nil(),
        a.id != b.id,
        a.id <= i64::MAX,
        b.id <= i64::MAX,
    ensures
        m.autoload_docstring(a, LispObject::Fixnum(0)) is Fixnum,
        m.autoload_docstring(a, LispObject::Fixnum(0)) != m.autoload_docstring(
            b,
            LispObject::Fixnum(0),
        ),
{
}

} // verus!

//! Going on with a primitive once its request has been answered.
use vstd::prelude::*;
use crate::binding::{let_bind, let_next, let_star_bind, let_star_next, let_star_polled};
use crate::command::{command_found, command_property};
use crate::control::{
    and_resumed, cond_resumed, if_resumed, or_resumed, prog1, progn_next, while_resumed,
};
use crate::functions::{function_documented, macro_expanded, macro_loaded, macro_polled};
use crate::heap::{Heap, Memory};
use crate::machine::{After, Bindings, Frame, Request, Step};
use crate::object::{LispObject, QNIL, QRISKY_LOCAL_VARIABLE, QVARIABLE_DOCUMENTATION};
use crate::variables::{
    defconst_doc, defconst_risky, defconst_stored, defconst_value, setq_next, setq_store,
};

verus! {

impl Memory {
    /// The cells that a frame goes back to are still there.
    pub open spec fn ready(self, frame: Frame, reply: LispObject) -> bool {
        match frame {
            Frame::If { cell } => self.cons(cell) is Some,
            Frame::Cond { clause, .. } => self.cons(clause) is Some,
            Frame::FunctionDoc { lambda } => reply is Str ==> self.nth_cell(lambda, 1) is Some,
            _ => true,
        }
    }

    /// The memory and the step once the request of `frame` is answered with `reply`.
    pub open spec fn resumed(self, frame: Frame, reply: LispObject) -> (Memory, Step) {
        match frame {
            Frame::Return => (self, Step::Done(reply)),
            Frame::Answer { value } => (self, Step::Done(value)),
            Frame::Or { rest } => (
                self,
                if reply.is_nil() {
                    self.or_step(rest)
                } else {
                    Step::Done(reply)
                },
            ),
            Frame::And { rest } => (
                self,
                if reply.is_nil() {
                    Step::Done(LispObject::nil())
                } else {
                    self.and_step(rest, reply)
                },
            ),
            Frame::If { cell } => (self, self.if_chosen(cell, reply)),
            Frame::Cond { clause, rest } => (self, self.cond_chosen(clause, rest, reply)),
            Frame::Progn { rest, after } => (self, self.progn_step(rest, reply, after)),
            Frame::Prog1 { body } => (
                self,
                self.progn_step(body, LispObject::nil(), After::Constant { value: reply }),
            ),
            Frame::Prog2 { rest } => (self, self.prog1(rest)),
            Frame::WhileTest { test, body } => (
                self,
                if reply.is_nil() {
                    Step::Done(LispObject::nil())
                } else {
                    Step::Call(Request::MaybeQuit, Frame::WhilePolled { test, body })
                },
            ),
            Frame::WhilePolled { test, body } => (
                self,
                self.progn_step(body, LispObject::nil(), After::Again { test, body }),
            ),
            Frame::SetqValue { list, rest, sym, nargs } => self.setq_store(
                list,
                rest,
                sym,
                nargs,
                reply,
            ),
            Frame::SetqStored { list, rest, val, nargs } => (
                self,
                self.setq_step(list, rest, val, nargs),
            ),
            Frame::DefconstValue { sym, docstring } => (
                self,
                if self.purify_flag.is_nil() {
                    Step::Call(
                        Request::SetDefault { sym, val: reply },
                        Frame::DefconstStored { sym, docstring },
                    )
                } else {
                    Step::Call(
                        Request::Purecopy { obj: reply },
                        Frame::DefconstPure { sym, docstring },
                    )
                },
            ),
            Frame::DefconstPure { sym, docstring } => (
                self,
                Step::Call(
                    Request::SetDefault { sym, val: reply },
                    Frame::DefconstStored { sym, docstring },
                ),
            ),
            Frame::DefconstStored { sym, docstring } => self.defconst_stored(sym, docstring),
            Frame::DefconstDoc { sym } => (
                self,
                Step::Call(
                    Request::Put {
                        sym,
                        prop: LispObject::Symbol(QVARIABLE_DOCUMENTATION),
                        val: reply,
                    },
                    Frame::DefconstRisky { sym },
                ),
            ),
            Frame::DefconstRisky { sym } => (
                self,
                Step::Call(
                    Request::Put {
                        sym,
                        prop: LispObject::Symbol(QRISKY_LOCAL_VARIABLE),
                        val: LispObject::t(),
                    },
                    Frame::DefconstHistory { sym },
                ),
            ),
            Frame::DefconstHistory { sym } => (
                self,
                Step::Call(Request::LoadhistAttach { sym }, Frame::Answer { value: sym }),
            ),
            Frame::LetStarPolled { scope, binding } => self.let_star_binding(scope, binding),
            Frame::LetStarValue { scope, var } => self.let_star_bind(scope, var, reply),
            Frame::LetStarBound { scope } => (self, self.let_star_step(scope)),
            Frame::LetValue { scope, var, values } => self.let_step(
                scope,
                Bindings::Bind { var, val: reply, rest: Box::new(values) },
            ),
            Frame::LetBound { lexenv, pending, body, count } => self.let_bind(
                lexenv,
                pending,
                body,
                count,
            ),
            Frame::LetEntered { body, count } => (
                self,
                self.progn_step(body, LispObject::nil(), After::Unbind { count }),
            ),
            Frame::FunctionDoc { lambda } => self.documented_closure(lambda, reply),
            Frame::MacroPolled { form, body, environment, symbol } => (
                self,
                self.macro_lookup(form, body, environment, symbol),
            ),
            Frame::MacroLoaded { form, body, environment } => (
                self,
                self.macro_loaded(form, body, environment, reply),
            ),
            Frame::MacroExpanded { form, environment } => (
                self,
                if reply == form {
                    Step::Done(form)
                } else {
                    self.macroexpand(reply, environment)
                },
            ),
            Frame::CommandFound { function, for_call_interactively } => (
                self,
                if reply.is_nil() {
                    Step::Done(LispObject::nil())
                } else {
                    self.command_step(function, for_call_interactively, false)
                },
            ),
            Frame::CommandProperty { symbol, for_call_interactively, has_property } => (
                self,
                self.command_step(
                    self.function(symbol),
                    for_call_interactively,
                    has_property || !reply.is_nil(),
                ),
            ),
        }
    }
}

/// Whether the cells that a frame goes back to are still there.
pub fn can_resume(heap: &Heap, frame: &Frame, reply: LispObject) -> (ready: bool)
    ensures
        ready == heap@.ready(*frame, reply),
{
    match frame {
        Frame::If { cell } => heap.cons_at(*cell).is_some(),
        Frame::Cond { clause, .. } => heap.cons_at(*clause).is_some(),
        Frame::FunctionDoc { lambda } => {
            proof {
                reveal_with_fuel(Memory::tail, 2);
            }
            match (reply, heap.cons_at(*lambda)) {
                (LispObject::Str(_), Some(arguments)) => heap.cons_at(arguments.cdr).is_some(),
                (LispObject::Str(_), None) => false,
                _ => true,
            }
        },
        _ => true,
    }
}

/// Goes on with a primitive once the request that it made with `frame` is
/// answered with `reply`. The heap may have changed in any way since the request
/// was made, except that the cells that the frame goes back to must still be there.
pub fn resume(heap: &mut Heap, frame: Frame, reply: LispObject) -> (step: Step)
    requires
        old(heap)@.ready(frame, reply),
    ensures
        (final(heap)@, step) == old(heap)@.resumed(frame, reply),
{
    let nil = LispObject::Symbol(QNIL);
    match frame {
        Frame::Return => Step::Done(reply),
        Frame::Answer { value } => Step::Done(value),
        Frame::Or { rest } => or_resumed(heap, rest, reply),
        Frame::And { rest } => and_resumed(heap, rest, reply),
        Frame::If { cell } => if_resumed(heap, cell, reply),
        Frame::Cond { clause, rest } => cond_resumed(heap, clause, rest, reply),
        Frame::Progn { rest, after } => progn_next(heap, rest, reply, after),
        Frame::Prog1 { body } => progn_next(heap, body, nil, After::Constant { value: reply }),
        Frame::Prog2 { rest } => prog1(heap, rest),
        Frame::WhileTest { test, body } => while_resumed(test, body, reply),
        Frame::WhilePolled { test, body } => progn_next(
            heap,
            body,
            nil,
            After::Again { test, body },
        ),
        Frame::SetqValue { list, rest, sym, nargs } => setq_store(
            heap,
            list,
            rest,
            sym,
            nargs,
            reply,
        ),
        Frame::SetqStored { list, rest, val, nargs } => setq_next(heap, list, rest, val, nargs),
        Frame::DefconstValue { sym, docstring } => defconst_value(heap, sym, docstring, reply),
        Frame::DefconstPure { sym, docstring } => Step::Call(
            Request::SetDefault { sym, val: reply },
            Frame::DefconstStored { sym, docstring },
        ),
        Frame::DefconstStored { sym, docstring } => defconst_stored(heap, sym, docstring),
        Frame::DefconstDoc { sym } => defconst_doc(sym, reply),
        Frame::DefconstRisky { sym } => defconst_risky(sym),
        Frame::DefconstHistory { sym } => Step::Call(
            Request::LoadhistAttach { sym },
            Frame::Answer { value: sym },
        ),
        Frame::LetStarPolled { scope, binding } => let_star_polled(heap, scope, binding),
        Frame::LetStarValue { scope, var } => let_star_bind(heap, scope, var, reply),
        Frame::LetStarBound { scope } => let_star_next(heap, scope),
        Frame::LetValue { scope, var, values } => let_next(
            heap,
            scope,
            Bindings::Bind { var, val: reply, rest: Box::new(values) },
        ),
        Frame::LetBound { lexenv, pending, body, count } => let_bind(
            heap,
            lexenv,
            pending,
            body,
            count,
        ),
        Frame::LetEntered { body, count } => progn_next(heap, body, nil, After::Unbind { count }),
        Frame::FunctionDoc { lambda } => function_documented(heap, lambda, reply),
        Frame::MacroPolled { form, body, environment, symbol } => macro_polled(
            heap,
            form,
            body,
            environment,
            symbol,
        ),
        Frame::MacroLoaded { form, body, environment } => macro_loaded(
            heap,
            form,
            body,
            environment,
            reply,
        ),
        Frame::MacroExpanded { form, environment } => macro_expanded(
            heap,
            form,
            environment,
            reply,
        ),
        Frame::CommandFound { function, for_call_interactively } => command_found(
            heap,
            function,
            for_call_interactively,
            reply,
        ),
        Frame::CommandProperty { symbol, for_call_interactively, has_property } => command_property(
            heap,
            symbol,
            for_call_interactively,
            has_property,
            reply,
        ),
    }
}

} // verus!

//! Commands and autoloads.
use vstd::prelude::*;
use crate::errors::LispError;
use crate::heap::{Heap, Memory, Vectorlike};
use crate::lists::{assq, car, cdr};
use crate::machine::{Frame, Request, Step};
use crate::object::{
    LispObject, LispStringRef, LispSymbolRef, QAUTOLOAD, QCLOSURE, QINTERACTIVE, QINTERACTIVE_FORM,
    QLAMBDA, QNIL,
};

verus! {

/// The index of the interactive spec in a byte code object.
pub const COMPILED_INTERACTIVE: i64 = 5;

impl Memory {
    /// The list `obj` without its first `n` elements, nil if it has no more.
    pub open spec fn nthcdr(self, obj: LispObject, n: nat) -> Result<LispObject, LispError>
        decreases n,
    {
        if n == 0 {
            Ok(obj)
        } else {
            match self.nthcdr(obj, (n - 1) as nat) {
                Ok(rest) => self.cdr(rest),
                Err(error) => Err(error),
            }
        }
    }

    /// Whether a form of the body `body` is a call to `interactive`.
    pub open spec fn has_interactive(self, body: Result<LispObject, LispError>) -> Result<
        bool,
        LispError,
    > {
        match body {
            Ok(forms) => match self.assq(LispObject::Symbol(QINTERACTIVE), forms) {
                Ok(found) => Ok(!found.is_nil()),
                Err(error) => Err(error),
            },
            Err(error) => Err(error),
        }
    }

    /// Whether the list `fun` is a command by itself; none if it is no list that
    /// represents a function.
    pub open spec fn list_command(self, fun: LispObject) -> Option<Result<bool, LispError>> {
        match self.cons(fun) {
            Some(cell) => if cell.car == LispObject::Symbol(QCLOSURE) {
                // (closure ENVIRONMENT ARGUMENTS BODY...)
                Some(self.has_interactive(self.nthcdr(cell.cdr, 2)))
            } else if cell.car == LispObject::Symbol(QLAMBDA) {
                // (lambda ARGUMENTS BODY...)
                Some(self.has_interactive(self.nthcdr(cell.cdr, 1)))
            } else if cell.car == LispObject::Symbol(QAUTOLOAD) {
                // (autoload FILE DOCSTRING INTERACTIVE TYPE)
                Some(
                    match self.nthcdr(cell.cdr, 2) {
                        Ok(rest) => match self.car(rest) {
                            Ok(interactive) => Ok(!interactive.is_nil()),
                            Err(error) => Err(error),
                        },
                        Err(error) => Err(error),
                    },
                )
            } else {
                None
            },
            None => None,
        }
    }

    /// Whether the function `fun`, which is no symbol, is a command, given whether
    /// a symbol on the way to it has the property that makes it one.
    pub open spec fn command_definition(
        self,
        fun: LispObject,
        for_call_interactively: bool,
        has_property: bool,
    ) -> Result<bool, LispError> {
        if fun is Str {
            Ok(!for_call_interactively)
        } else if let Some(kind) = self.vectorlike(fun) {
            Ok(
                match kind {
                    Vectorlike::Vector => !for_call_interactively,
                    Vectorlike::Subr { interactive } => interactive || has_property,
                    Vectorlike::Pseudovector { compiled, size } => (compiled && size
                        > COMPILED_INTERACTIVE) || has_property,
                },
            )
        } else {
            match self.list_command(fun) {
                Some(Ok(interactive)) => Ok(interactive || has_property),
                Some(Err(error)) => Err(error),
                None => Ok(false),
            }
        }
    }

    /// `commandp` at `fun`: the property of a symbol is to be read, any other
    /// function decides.
    pub open spec fn command_step(
        self,
        fun: LispObject,
        for_call_interactively: bool,
        has_property: bool,
    ) -> Step {
        match fun {
            LispObject::Symbol(symbol) => Step::Call(
                Request::Get { sym: fun, prop: LispObject::Symbol(QINTERACTIVE_FORM) },
                Frame::CommandProperty { symbol, for_call_interactively, has_property },
            ),
            _ => match self.command_definition(fun, for_call_interactively, has_property) {
                Ok(command) => Step::Done(LispObject::from_bool(command)),
                Err(error) => Step::Fail(error),
            },
        }
    }

    /// Whether a function definition says that the function is still to be loaded.
    pub open spec fn is_autoload(self, def: LispObject) -> bool {
        self.cons(def) matches Some(cell) && cell.car == LispObject::Symbol(QAUTOLOAD)
    }

    /// The memory with the list of the five objects, and that list.
    pub open spec fn list5(
        self,
        a: LispObject,
        b: LispObject,
        c: LispObject,
        d: LispObject,
        e: LispObject,
    ) -> (Memory, LispObject) {
        let (m1, l1) = self.consed(e, LispObject::nil());
        let (m2, l2) = m1.consed(d, l1);
        let (m3, l3) = m2.consed(c, l2);
        let (m4, l4) = m3.consed(b, l3);
        m4.consed(a, l4)
    }

    /// The documentation that `autoload` records: while the program is being
    /// dumped, a number of its own for each symbol takes the place of 0.
    pub open spec fn autoload_docstring(
        self,
        symbol: LispSymbolRef,
        docstring: LispObject,
    ) -> LispObject {
        if !self.purify_flag.is_nil() && docstring == LispObject::Fixnum(0) {
            LispObject::Fixnum(symbol.id as i64)
        } else {
            docstring
        }
    }

    /// `autoload`: the definition (autoload `file` `docstring` `interactive` `ty`)
    /// is to be recorded, unless there is one of another kind.
    pub open spec fn autoload(
        self,
        symbol: LispSymbolRef,
        file: LispStringRef,
        docstring: LispObject,
        interactive: LispObject,
        ty: LispObject,
    ) -> (Memory, Step) {
        let current = self.function(symbol.id);
        if !current.is_nil() && !self.is_autoload(current) {
            (self, Step::Done(LispObject::nil()))
        } else {
            let (listed, def) = self.list5(
                LispObject::Symbol(QAUTOLOAD),
                file.as_lisp_obj(),
                self.autoload_docstring(symbol, docstring),
                interactive,
                ty,
            );
            (
                listed,
                Step::Call(
                    Request::Defalias { sym: symbol.as_lisp_obj(), def, doc: LispObject::nil() },
                    Frame::Return,
                ),
            )
        }
    }

    /// `commandp`: the chain of symbols that begins with `function` is to be followed
    /// to its end, which shows that it has one.
    pub open spec fn commandp(function: LispObject, for_call_interactively: bool) -> Step {
        Step::Call(
            Request::IndirectFunction { obj: function },
            Frame::CommandFound { function, for_call_interactively },
        )
    }
}

/// Non-nil if FUNCTION makes provisions for interactive calling. This means it
/// contains a description for how to read arguments to give it. The value is nil
/// for an invalid function or a symbol with no function definition.
///
/// Interactively callable functions are strings and vectors (treated as keyboard
/// macros), lambda-expressions that contain a top-level call to `interactive',
/// autoload definitions made by `autoload' with non-nil fourth argument, and some
/// of the built-in functions of Lisp.
///
/// Also, a symbol satisfies `commandp' if its function definition does so, or if it
/// has a non-nil `interactive-form' property and its definition is a function other
/// than a string or a vector.
///
/// If the optional argument FOR-CALL-INTERACTIVELY is non-nil, strings and vectors
/// are not accepted.
pub fn commandp(function: LispObject, for_call_interactively: bool) -> (step: Step)
    ensures
        step == Memory::commandp(function, for_call_interactively),
{
    Step::Call(
        Request::IndirectFunction { obj: function },
        Frame::CommandFound { function, for_call_interactively },
    )
}

/// Goes on with `commandp` of `function`, with the function `fun` at the end of the
/// chain of symbols. If there is one, the chain is gone through once more from its
/// beginning: a symbol on it may have an `interactive-form` property.
pub fn command_found(
    heap: &Heap,
    function: LispObject,
    for_call_interactively: bool,
    fun: LispObject,
) -> (step: Step)
    ensures
        step == if fun.is_nil() {
            Step::Done(LispObject::nil())
        } else {
            heap@.command_step(function, for_call_interactively, false)
        },
{
    if fun.is_nil() {
        Step::Done(LispObject::Symbol(QNIL))
    } else {
        command_next(heap, function, for_call_interactively, false)
    }
}

/// Goes on with `commandp` with the `interactive-form` property of `symbol`.
pub fn command_property(
    heap: &Heap,
    symbol: usize,
    for_call_interactively: bool,
    has_property: bool,
    property: LispObject,
) -> (step: Step)
    ensures
        step == heap@.command_step(
            heap@.function(symbol),
            for_call_interactively,
            has_property || !property.is_nil(),
        ),
{
    command_next(
        heap,
        heap.function(symbol),
        for_call_interactively,
        has_property || !property.is_nil(),
    )
}

/// Goes on with `commandp` at `fun`.
fn command_next(
    heap: &Heap,
    fun: LispObject,
    for_call_interactively: bool,
    has_property: bool,
) -> (step: Step)
    ensures
        step == heap@.command_step(fun, for_call_interactively, has_property),
{
    match fun {
        LispObject::Symbol(symbol) => Step::Call(
            Request::Get { sym: fun, prop: LispObject::Symbol(QINTERACTIVE_FORM) },
            Frame::CommandProperty { symbol, for_call_interactively, has_property },
        ),
        _ => match command_definition(heap, fun, for_call_interactively, has_property) {
            Ok(command) => Step::Done(LispObject::from_bool(command)),
            Err(error) => Step::Fail(error),
        },
    }
}

/// Whether the function `fun`, which is no symbol, is a command.
pub fn command_definition(
    heap: &Heap,
    fun: LispObject,
    for_call_interactively: bool,
    has_property: bool,
) -> (command: Result<bool, LispError>)
    ensures
        command == heap@.command_definition(fun, for_call_interactively, has_property),
{
    if let LispObject::Str(_) = fun {
        // A string is a keyboard macro.
        return Ok(!for_call_interactively);
    }
    if let Some(kind) = heap.vectorlike_at(fun) {
        return Ok(
            match kind {
                // A vector is a keyboard macro.
                Vectorlike::Vector => !for_call_interactively,
                Vectorlike::Subr { interactive } => interactive || has_property,
                // A byte code object is interactive if it is long enough to have
                // the element where the interactive spec is stored.
                Vectorlike::Pseudovector { compiled, size } => (compiled && size
                    > COMPILED_INTERACTIVE) || has_property,
            },
        );
    }
    match list_command(heap, fun) {
        Some(Ok(interactive)) => Ok(interactive || has_property),
        Some(Err(error)) => Err(error),
        None => Ok(false),
    }
}

/// Whether a list is a command by itself.
fn list_command(heap: &Heap, fun: LispObject) -> (command: Option<Result<bool, LispError>>)
    ensures
        command == heap@.list_command(fun),
{
    proof {
        reveal_with_fuel(Memory::nthcdr, 3);
    }
    let cell = match heap.cons_at(fun) {
        Some(cell) => cell,
        None => {
            return None;
        },
    };
    if cell.car == LispObject::Symbol(QCLOSURE) {
        let body = match cdr(heap, cell.cdr) {
            Ok(rest) => cdr(heap, rest),
            Err(error) => Err(error),
        };
        Some(has_interactive(heap, body))
    } else if cell.car == LispObject::Symbol(QLAMBDA) {
        Some(has_interactive(heap, cdr(heap, cell.cdr)))
    } else if cell.car == LispObject::Symbol(QAUTOLOAD) {
        let rest = match cdr(heap, cell.cdr) {
            Ok(rest) => cdr(heap, rest),
            Err(error) => Err(error),
        };
        Some(
            match rest {
                Ok(rest) => match car(heap, rest) {
                    Ok(interactive) => Ok(!interactive.is_nil()),
                    Err(error) => Err(error),
                },
                Err(error) => Err(error),
            },
        )
    } else {
        None
    }
}

/// Whether a form of a body is a call to `interactive`.
fn has_interactive(heap: &Heap, body: Result<LispObject, LispError>) -> (found: Result<
    bool,
    LispError,
>)
    ensures
        found == heap@.has_interactive(body),
{
    match body {
        Ok(forms) => match assq(heap, LispObject::Symbol(QINTERACTIVE), forms) {
            Ok(found) => Ok(!found.is_nil()),
            Err(error) => Err(error),
        },
        Err(error) => Err(error),
    }
}

/// Defines FUNCTION to autoload from FILE. FUNCTION is a symbol; FILE is a file
/// name string to pass to `load'. Third arg DOCSTRING is documentation for the
/// function. Fourth arg INTERACTIVE if non-nil says function can be called
/// interactively. Fifth arg TYPE indicates the type of the object:
///    nil or omitted says FUNCTION is a function,
///    `keymap' says FUNCTION is really a keymap, and
///    `macro' or t says FUNCTION is really a macro.
/// Third through fifth args give info about the real definition. They default to
/// nil. If FUNCTION is already defined other than as an autoload, this does nothing
/// and returns nil.
pub fn autoload(
    heap: &mut Heap,
    function: LispSymbolRef,
    file: LispStringRef,
    docstring: LispObject,
    interactive: LispObject,
    ty: LispObject,
) -> (step: Step)
    ensures
        (final(heap)@, step) == old(heap)@.autoload(function, file, docstring, interactive, ty),
{
    let current = heap.function(function.id);
    if !current.is_nil() && !is_autoload(heap, current) {
        return Step::Done(LispObject::Symbol(QNIL));
    }
    let docstring = autoload_docstring(heap, function, docstring);
    let nil = LispObject::Symbol(QNIL);
    let list = heap.cons(ty, nil);
    let list = heap.cons(interactive, list);
    let list = heap.cons(docstring, list);
    let list = heap.cons(file.as_lisp_obj(), list);
    let def = heap.cons(LispObject::Symbol(QAUTOLOAD), list);
    Step::Call(
        Request::Defalias { sym: function.as_lisp_obj(), def, doc: nil },
        Frame::Return,
    )
}

/// Whether a function definition says that the function is still to be loaded.
fn is_autoload(heap: &Heap, def: LispObject) -> (autoload: bool)
    ensures
        autoload == heap@.is_autoload(def),
{
    match heap.cons_at(def) {
        Some(cell) => cell.car == LispObject::Symbol(QAUTOLOAD),
        None => false,
    }
}

/// The documentation that `autoload` records. The reader passes 0 for a string
/// that is to be filled in later; that every such function had the same 0 would
/// make their definitions one when they are copied to pure storage.
fn autoload_docstring(heap: &Heap, symbol: LispSymbolRef, docstring: LispObject) -> (recorded:
    LispObject)
    ensures
        recorded == heap@.autoload_docstring(symbol, docstring),
{
    if !heap.purify_flag().is_nil() && docstring == LispObject::Fixnum(0) {
        LispObject::Fixnum(symbol.id as i64)
    } else {
        docstring
    }
}

} // verus!

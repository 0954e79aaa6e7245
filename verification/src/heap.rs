//! The heap: what the primitives read and write of the interpreter's state.
use vstd::prelude::*;
use vstd::pervasive::unreached;
use crate::object::{LispObject, LispSymbolRef, QNIL, STATIC_SYMBOLS};

verus! {

/// The two halves of a cons cell.
#[derive(Clone, Copy, Debug, PartialEq, Eq, Structural)]
pub struct Cons {
    pub car: LispObject,
    pub cdr: LispObject,
}

/// What the primitives see of a symbol.
#[derive(Clone, Copy, Debug, PartialEq, Eq, Structural)]
pub struct SymbolCell {
    /// The function definition, nil if there is none.
    pub function: LispObject,
    /// Whether the variable is always bound dynamically.
    pub declared_special: bool,
}

/// What the primitives see of a vector or of one of its relatives.
#[derive(Clone, Copy, Debug, PartialEq, Eq, Structural)]
pub enum Vectorlike {
    Vector,
    /// A built-in function; `interactive` says whether it has an interactive spec.
    Subr { interactive: bool },
    /// Any other relative of a vector; `compiled` holds of byte code objects.
    Pseudovector { compiled: bool, size: i64 },
}

/// The Lisp data, the function cells and special flags of the symbols, and the
/// two global variables that steer the primitives.
pub struct Heap {
    conses: Vec<Cons>,
    symbols: Vec<SymbolCell>,
    strings: Vec<String>,
    vectorlikes: Vec<Vectorlike>,
    lexenv: LispObject,
    purify_flag: LispObject,
}

/// The contents of a heap.
#[verifier::ext_equal]
pub struct Memory {
    pub conses: Seq<Cons>,
    pub symbols: Seq<SymbolCell>,
    pub strings: Seq<Seq<char>>,
    pub vectorlikes: Seq<Vectorlike>,
    /// The variable `internal-interpreter-environment`: an alist of the lexical
    /// bindings, or nil where variables are bound dynamically.
    pub lexenv: LispObject,
    /// The variable `purify-flag`.
    pub purify_flag: LispObject,
}

impl Memory {
    /// The cell that `obj` is; none if it is no cons cell of this heap.
    pub open spec fn cons(self, obj: LispObject) -> Option<Cons> {
        match obj {
            LispObject::Cons(id) => if id < self.conses.len() {
                Some(self.conses[id as int])
            } else {
                None
            },
            _ => None,
        }
    }

    /// The function definition of a symbol; nil for a symbol without one.
    pub open spec fn function(self, id: usize) -> LispObject {
        if id < self.symbols.len() {
            self.symbols[id as int].function
        } else {
            LispObject::nil()
        }
    }

    /// Whether a symbol is declared special.
    pub open spec fn special(self, id: usize) -> bool {
        id < self.symbols.len() && self.symbols[id as int].declared_special
    }

    /// What `obj` is among the vectors and their relatives, if it is one.
    pub open spec fn vectorlike(self, obj: LispObject) -> Option<Vectorlike> {
        match obj {
            LispObject::Vectorlike(id) => if id < self.vectorlikes.len() {
                Some(self.vectorlikes[id as int])
            } else {
                None
            },
            _ => None,
        }
    }

    /// The memory with one more cell, and that cell.
    pub open spec fn consed(self, car: LispObject, cdr: LispObject) -> (Memory, LispObject) {
        (
            Memory { conses: self.conses.push(Cons { car, cdr }), ..self },
            LispObject::Cons(self.conses.len() as usize),
        )
    }

    /// The memory with one more string, and that string.
    pub open spec fn with_string(self, text: Seq<char>) -> (Memory, LispObject) {
        (
            Memory { strings: self.strings.push(text), ..self },
            LispObject::Str(self.strings.len() as usize),
        )
    }

    /// The memory in which the cdr of the cell `obj` is `cdr`.
    pub open spec fn with_cdr(self, obj: LispObject, cdr: LispObject) -> Memory {
        match (obj, self.cons(obj)) {
            (LispObject::Cons(id), Some(cell)) => Memory {
                conses: self.conses.update(id as int, Cons { car: cell.car, cdr }),
                ..self
            },
            _ => self,
        }
    }

    /// The memory in which the special flag of a symbol is `special`.
    pub open spec fn with_special(self, id: usize, special: bool) -> Memory {
        if id < self.symbols.len() {
            Memory {
                symbols: self.symbols.update(
                    id as int,
                    SymbolCell {
                        function: self.symbols[id as int].function,
                        declared_special: special,
                    },
                ),
                ..self
            }
        } else {
            self
        }
    }

    /// The memory in which the function definition of a symbol is `function`.
    pub open spec fn with_function(self, id: usize, function: LispObject) -> Memory {
        if id < self.symbols.len() {
            Memory {
                symbols: self.symbols.update(
                    id as int,
                    SymbolCell {
                        function,
                        declared_special: self.symbols[id as int].declared_special,
                    },
                ),
                ..self
            }
        } else {
            self
        }
    }

    /// The memory in which the lexical environment is `lexenv`.
    pub open spec fn with_lexenv(self, lexenv: LispObject) -> Memory {
        Memory { lexenv, ..self }
    }

    /// The heap holds what `obj` refers to.
    pub open spec fn has(self, obj: LispObject) -> bool {
        match obj {
            LispObject::Symbol(id) => id < self.symbols.len(),
            LispObject::Cons(id) => id < self.conses.len(),
            LispObject::Str(id) => id < self.strings.len(),
            LispObject::Vectorlike(id) => id < self.vectorlikes.len(),
            _ => true,
        }
    }

    /// The heap holds the symbols known by name and everything that is referred to,
    /// and it is no larger than a machine can address.
    #[verifier::opaque]
    pub open spec fn well_formed(self) -> bool {
        &&& STATIC_SYMBOLS <= self.symbols.len()
        &&& self.conses.len() <= usize::MAX
        &&& self.strings.len() <= usize::MAX
        &&& self.has(self.lexenv)
        &&& self.has(self.purify_flag)
        &&& forall|i: int|
            0 <= i < self.conses.len() ==> self.has((#[trigger] self.conses[i]).car) && self.has(
                self.conses[i].cdr,
            )
        &&& forall|i: int|
            0 <= i < self.symbols.len() ==> self.has((#[trigger] self.symbols[i]).function)
    }

    /// This memory has all that `base` has, and may have more; no cell of `base` is
    /// different.
    pub open spec fn extends(self, base: Memory) -> bool {
        &&& base.conses.is_prefix_of(self.conses)
        &&& base.strings.is_prefix_of(self.strings)
        &&& base.vectorlikes.is_prefix_of(self.vectorlikes)
        &&& base.symbols.len() <= self.symbols.len()
    }
}

impl View for Heap {
    type V = Memory;

    closed spec fn view(&self) -> Memory {
        Memory {
            conses: self.conses@,
            symbols: self.symbols@,
            strings: self.strings@.map_values(|s: String| s@),
            vectorlikes: self.vectorlikes@,
            lexenv: self.lexenv,
            purify_flag: self.purify_flag,
        }
    }
}

impl Heap {
    /// A heap that holds the symbols known by name, undefined and not special,
    /// with dynamic binding in force and the purify flag off.
    pub fn new() -> (heap: Heap)
        ensures
            heap@ == (Memory {
                conses: Seq::empty(),
                symbols: Seq::new(
                    STATIC_SYMBOLS as nat,
                    |i: int| SymbolCell { function: LispObject::nil(), declared_special: false },
                ),
                strings: Seq::empty(),
                vectorlikes: Seq::empty(),
                lexenv: LispObject::nil(),
                purify_flag: LispObject::nil(),
            }),
            heap@.well_formed(),
    {
        proof {
            reveal(Memory::well_formed);
        }
        let mut symbols: Vec<SymbolCell> = Vec::new();
        while symbols.len() < STATIC_SYMBOLS
            invariant
                symbols.len() <= STATIC_SYMBOLS,
                forall|i: int|
                    0 <= i < symbols.len() ==> #[trigger] symbols@[i] == (SymbolCell {
                        function: LispObject::nil(),
                        declared_special: false,
                    }),
            decreases STATIC_SYMBOLS - symbols.len(),
        {
            symbols.push(
                SymbolCell { function: LispObject::Symbol(QNIL), declared_special: false },
            );
        }
        Heap {
            conses: Vec::new(),
            symbols,
            strings: Vec::new(),
            vectorlikes: Vec::new(),
            lexenv: LispObject::Symbol(QNIL),
            purify_flag: LispObject::Symbol(QNIL),
        }
    }

    /// The cell that `obj` is, if it is a cons cell.
    pub fn cons_at(&self, obj: LispObject) -> (cell: Option<Cons>)
        ensures
            cell == self@.cons(obj),
    {
        match obj {
            LispObject::Cons(id) => if id < self.conses.len() {
                Some(self.conses[id])
            } else {
                None
            },
            _ => None,
        }
    }

    /// The two halves of a cons cell.
    pub fn cell(&self, obj: LispObject) -> (cell: Cons)
        requires
            self@.cons(obj) is Some,
        ensures
            Some(cell) == self@.cons(obj),
    {
        match obj {
            LispObject::Cons(id) => self.conses[id],
            _ => unreached(),
        }
    }

    /// How many cells the heap holds.
    pub fn cons_count(&self) -> (n: usize)
        ensures
            n == self@.conses.len(),
    {
        self.conses.len()
    }

    /// Makes a cons cell.
    pub fn cons(&mut self, car: LispObject, cdr: LispObject) -> (obj: LispObject)
        ensures
            (final(self)@, obj) == old(self)@.consed(car, cdr),
    {
        let id: usize = self.conses.len();
        self.conses.push(Cons { car, cdr });
        LispObject::Cons(id)
    }

    /// Changes the cdr of a cons cell.
    pub fn set_cdr(&mut self, obj: LispObject, cdr: LispObject)
        ensures
            final(self)@ == old(self)@.with_cdr(obj, cdr),
    {
        if let LispObject::Cons(id) = obj {
            if id < self.conses.len() {
                let car = self.conses[id].car;
                self.conses.set(id, Cons { car, cdr });
            }
        }
    }

    /// Makes a symbol without a function definition, not declared special.
    pub fn make_symbol(&mut self) -> (symbol: LispSymbolRef)
        ensures
            symbol.id == old(self)@.symbols.len(),
            final(self)@ == (Memory {
                symbols: old(self)@.symbols.push(
                    SymbolCell { function: LispObject::nil(), declared_special: false },
                ),
                ..old(self)@
            }),
    {
        let id: usize = self.symbols.len();
        self.symbols.push(
            SymbolCell { function: LispObject::Symbol(QNIL), declared_special: false },
        );
        LispSymbolRef { id }
    }

    /// The function definition of a symbol.
    pub fn function(&self, id: usize) -> (function: LispObject)
        ensures
            function == self@.function(id),
    {
        if id < self.symbols.len() {
            self.symbols[id].function
        } else {
            LispObject::Symbol(QNIL)
        }
    }

    /// Changes the function definition of a symbol.
    pub fn set_function(&mut self, id: usize, function: LispObject)
        ensures
            final(self)@ == old(self)@.with_function(id, function),
    {
        if id < self.symbols.len() {
            let declared_special = self.symbols[id].declared_special;
            self.symbols.set(id, SymbolCell { function, declared_special });
        }
    }

    /// Whether a symbol is declared special.
    pub fn declared_special(&self, id: usize) -> (special: bool)
        ensures
            special == self@.special(id),
    {
        id < self.symbols.len() && self.symbols[id].declared_special
    }

    /// Changes the special flag of a symbol.
    pub fn set_declared_special(&mut self, id: usize, special: bool)
        ensures
            final(self)@ == old(self)@.with_special(id, special),
    {
        if id < self.symbols.len() {
            let function = self.symbols[id].function;
            self.symbols.set(id, SymbolCell { function, declared_special: special });
        }
    }

    /// Makes a string.
    pub fn make_string(&mut self, text: &str) -> (obj: LispObject)
        ensures
            (final(self)@, obj) == old(self)@.with_string(text@),
    {
        let id: usize = self.strings.len();
        self.strings.push(text.to_owned());
        assert(self@.strings =~= old(self)@.strings.push(text@));
        LispObject::Str(id)
    }

    /// The text of a string, if `obj` is one.
    pub fn string_at(&self, obj: LispObject) -> (text: Option<&str>)
        ensures
            match (obj, text) {
                (LispObject::Str(id), Some(s)) => id < self@.strings.len() && s@
                    == self@.strings[id as int],
                (LispObject::Str(id), None) => id >= self@.strings.len(),
                (_, s) => s is None,
            },
    {
        match obj {
            LispObject::Str(id) => if id < self.strings.len() {
                Some(self.strings[id].as_str())
            } else {
                None
            },
            _ => None,
        }
    }

    /// Makes a vector or one of its relatives.
    pub fn make_vectorlike(&mut self, kind: Vectorlike) -> (obj: LispObject)
        ensures
            obj == LispObject::Vectorlike(old(self)@.vectorlikes.len() as usize),
            final(self)@ == (Memory {
                vectorlikes: old(self)@.vectorlikes.push(kind),
                ..old(self)@
            }),
    {
        let id: usize = self.vectorlikes.len();
        self.vectorlikes.push(kind);
        LispObject::Vectorlike(id)
    }

    /// What `obj` is among the vectors and their relatives.
    pub fn vectorlike_at(&self, obj: LispObject) -> (kind: Option<Vectorlike>)
        ensures
            kind == self@.vectorlike(obj),
    {
        match obj {
            LispObject::Vectorlike(id) => if id < self.vectorlikes.len() {
                Some(self.vectorlikes[id])
            } else {
                None
            },
            _ => None,
        }
    }

    /// The lexical environment.
    pub fn lexenv(&self) -> (lexenv: LispObject)
        ensures
            lexenv == self@.lexenv,
    {
        self.lexenv
    }

    /// Changes the lexical environment.
    pub fn set_lexenv(&mut self, lexenv: LispObject)
        ensures
            final(self)@ == old(self)@.with_lexenv(lexenv),
    {
        self.lexenv = lexenv;
    }

    /// The purify flag.
    pub fn purify_flag(&self) -> (flag: LispObject)
        ensures
            flag == self@.purify_flag,
    {
        self.purify_flag
    }

    /// Changes the purify flag.
    pub fn set_purify_flag(&mut self, flag: LispObject)
        ensures
            final(self)@ == (Memory { purify_flag: flag, ..old(self)@ }),
    {
        self.purify_flag = flag;
    }
}

} // verus!

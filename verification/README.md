# lisp_eval

The special forms and evaluation primitives of an Emacs Lisp interpreter, with
their behaviour stated in contracts and proved with Verus: `or`, `and`, `if`,
`cond`, `progn`, `prog1`, `prog2`, `while`, `setq`, `defconst`, `let`, `let*`,
`function`, `macroexpand`, `commandp`, `autoload` and their relatives.

A primitive does not call the evaluator. It answers with a step: a value, an
error, or a request to the interpreter core with the frame in which it goes on.
The core carries the request out and hands the answer to `resume`. So every
contract holds whatever the core does in between, as long as the cells that the
frame goes back to are still there; `can_resume` tells whether they are.

- `object`, `heap`: Lisp objects, and what the primitives read and write of the
  interpreter's state. The view of a `Heap` is a `Memory`, and the model of each
  primitive is a method of `Memory`.
- `lists`, `errors`: list walks and searches, and the errors of the primitives.
- `machine`, `resume`: requests, frames and steps, and going on after an answer.
- `control`, `variables`, `binding`, `functions`, `command`: the primitives.
- `trace`, `laws`: runs of a primitive, and what holds over whole runs and across
  primitives, such as the order of evaluation, what a binding form undoes, and what
  no step changes.

`app/` wraps the primitives as calls that run to their end, on top of a trait for
the interpreter core.

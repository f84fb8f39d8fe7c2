# rsh

A small Unix shell whose logic is a verified library.

`src/` is the library, checked by Verus: the lexer and parser (with spans
for every error), word expansion and field splitting, redirection planning,
`PATH` search and "did you mean" suggestions, the job table and job
specifiers, exit statuses, the keystroke decoder, the line editor with
history and completion, screen redraws, line reading, and the decisions the
shell makes around a line (where it runs, whether it may exit). Each public
function states what it returns in its `ensures`. Where the answer depends
on something outside the library — a variable the environment holds, a
file on disk, whether a descriptor is open, what a completer offers — the
contract says which question was asked and what is done with whatever
answer came back, since nothing fixes the answer itself. The properties that
span several calls are stated as `law_*` proof functions beside the code
they are about.

`app/` is the program around it: the read–eval loop, signal handlers,
terminal ownership and modes, forking and waiting, descriptors, and the
filesystem and environment reads that completion and `cd` need.

`tests/` runs the library on concrete inputs.

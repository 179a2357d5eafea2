# monty

Python values for a sandboxed interpreter, verified with Verus.

A `Value` is a small immediate or a reference to an entry of the heap; a `VM`
holds the heap, the interned literals and the limits. The library says what
Python's operators and methods make of values: equality, order, hashes,
identities, arithmetic, items, attributes, `repr`, strings, tuples, slices,
dataclass instances, dates and times, paths, regular expressions and files. The
host does what reaches outside: it reads and writes files, tells the time and
rounds floating-point numbers. For these the library hands out a description of
the call and takes the result back.

## Layout

- `src/value.rs`, `src/heap.rs`, `src/vm.rs`, `src/intern.rs`: values, heap
  entries with their reference counts, the machine and its literals.
- `src/value_*.rs`: one operation on values each.
- `src/types/`: the types, each with its model, its functions and the laws that
  hold of them.
- `src/bigint.rs`, `src/calendar.rs`, `src/regex.rs`, `src/text.rs`,
  `src/value.rs`, `src/value_repr.rs`, `src/visited.rs`,
  `src/types/tuple_vec.rs`, `src/types/str_chars.rs`, `src/types/str_repr.rs`:
  the calls into other crates and into the standard library that the proofs
  trust, each with what is claimed of it.
- `app/`: floating-point arithmetic, display and snapshots around the library.
- `tests/`: examples for the functions and the laws.

Contracts speak of models: a text is a sequence of characters, an integer is a
mathematical one, a moment is a number of nanoseconds. A function that raises
says which exception it raises, with which message, and when.

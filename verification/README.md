# redscript-compiler

The declaration side of a compiler for redscript: it takes parsed source modules, works out which
types, functions, imports and overrides they declare, and writes the result as definitions into a
constant pool that a game can load.

* `src/` is the library. All of it is verified with Verus; the contracts are stated over models
  whose names end in `V`, and the public proof functions named `law_...` state what holds across
  several functions. The overview of the modules is in `src/lib.rs`.
* `tests/` runs the library on concrete modules and pools.
* `app/` is the driver around it. A parser, a body checker and a code generator are plugged in
  there as traits.

What is taken on trust is in two files: `src/tables.rs` holds the hash tables of `hashbrown` and
the path trie of `sequence_trie`, hashed by `ahash`, and `src/text.rs` joins text with `itertools`.

Functions whose names begin with `try_` say when something cannot be compiled, loaded or written.
Those without it ask for that beforehand.

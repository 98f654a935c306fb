//! The declaration side of a script compiler: from parsed source modules to definitions in a
//! constant pool.
//!
//! A compilation goes through four steps.
//!
//! * `db` and `intact` load the types and functions that a pool describes.
//! * `compiler` runs over parsed files: `modules` makes declarations and imports known,
//!   `preprocess` looks at each declaration, `inheritance` works out overriding, and `queue`
//!   gathers what each function body has to be checked with.
//! * `outputs` writes the result to the pool: `commit` defines types, `assemble` gives functions
//!   their places, and `wrap` lets wrappers take the place of the methods that they wrap.
//!   `ready` tells beforehand whether that is possible.
//! * The function bodies themselves are checked and turned into code outside of this crate.
//!
//! The other modules hold what these work on: the pool (`pool`, `builders`, `type_cache`), types
//! and functions (`types`, `funcs`, `repo`, `flags`), names (`scope`, `module_map`, `text`) and
//! collections (`tables`, `dict`). `roundtrip`, `reload`, `recovery` and `frame` state what is loaded
//! again of what has been written, and what a compilation leaves as it was, and `wrapping` what it
//! makes of a method that it wraps. `order` states that the order of files does not matter for what
//! a declared class refers to, and `runs` that it does not matter for which types are listed, what
//! classes are made of and which errors are reported. That rests on `gather` and `likeness`.
//!
//! What each step comes to is stated over its input and its result: `reading` of what is loaded of
//! a pool, `collecting` and `naming` of what files make known and what names stand for, `declaring`
//! of what a declaration makes of a class or a function, `overriding` of which methods override
//! which, `checking` of what bodies are checked with, `forms` of how types are described in a pool,
//! and `writing` of what stands in the pool at the end.
pub mod assemble;
pub mod builders;
pub mod checking;
pub mod collecting;
pub mod commit;
pub mod compiler;
pub mod db;
pub mod declaring;
pub mod dict;
pub mod error;
pub mod flags;
pub mod forms;
pub mod frame;
pub mod funcs;
pub mod gather;
pub mod inheritance;
pub mod intact;
pub mod likeness;
pub mod module_map;
pub mod modules;
pub mod naming;
pub mod order;
pub mod outputs;
pub mod overriding;
pub mod pool;
pub mod preprocess;
pub mod queue;
pub mod reading;
pub mod ready;
pub mod recovery;
pub mod reload;
pub mod repo;
pub mod roundtrip;
pub mod runs;
pub mod scope;
pub mod source;
pub mod tables;
pub mod text;
pub mod type_cache;
pub mod types;
pub mod wrap;
pub mod wrapping;
pub mod writing;

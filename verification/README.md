# funcmap

Derivable functorial mappings for Rust: the traits `FuncMap` and `TryFuncMap`
apply a closure to every (possibly nested) occurrence of a type parameter
within a generic type, together with the logic that derives them for structs
and enums.

## Layout

- `src/` is the library, verified with Verus:
  - `mapping.rs`, `marker.rs`: the traits and their marker types, with
    contracts over the relation that a closure produces;
  - `impls_core.rs`, `impls_alloc.rs`, `impls_btree.rs`, `impls_hash.rs`,
    `array.rs`: the implementations for types of `core`, `alloc` and `std`
    and for arrays;
  - `syntax.rs`, `generics.rs`: the model of the syntax that the derive logic
    reads (types, paths, bounds, generic parameters, `where` predicates), with
    views that forget spans;
  - `parse.rs`, `syn_tree.rs`: parsing the input item with `syn` and
    converting its syntax tree into the model;
  - `opts.rs`, `input.rs`: the `#[funcmap(...)]` options and the preparation
    of the input item;
  - `map.rs`, `derive.rs`, `predicates.rs`, `ident_collector.rs`: the
    computation of the implementations: mapping expressions, generated
    predicates, fresh identifiers;
  - `error.rs`, `result.rs`, `diagnostic.rs`: accumulation of compile errors;
  - `laws.rs`: the functor laws and the other properties that span several
    operations.
- `app/` hands the tokens of an item to the library and renders the computed
  implementations with `quote`.
- `tests/` runs the library on concrete values.

## Scope

- The mappings are implemented for `Option`, `Result`, `ControlFlow`,
  `Bound`, `Poll`, the range types, `PhantomData`, `Box`, `Vec`, `VecDeque`,
  `BTreeMap`, `BTreeSet`, `HashMap`, `HashSet` and arrays; the fallible
  mappings of `HashMap` and `HashSet`, whose first error depends on an
  iteration order that their documentation leaves open, are not provided.
  Mappings for `BinaryHeap`, `LinkedList` and the `IntoIter` types of the
  collections are not provided: these types carry an allocator parameter
  that Verus cannot declare. Mappings for `Cell`, `RefCell` and `UnsafeCell`
  are not provided either: Verus does not support these types of interior
  mutability.
- The sets of bounds and predicates that the derive logic collects keep
  their entries in insertion order without duplicates. They hold the
  library's own model of bounds and types, compared spans aside, so they are
  kept as vectors whose contracts state both properties.
- The path of `#[funcmap(crate = "...")]` is lexed with `proc_macro2` and
  parsed with `syn`. The contracts relate the path to the outcome of lexing
  the literal's value, since the lexer in use depends on whether the code
  runs inside a procedural macro.
- Rendering the implementations, which goes through `quote`, is done in
  `app/`.

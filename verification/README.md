# spirv_const

Constant construction for a SPIR-V code generator, verified with Verus.

The library keeps the part of a code generation context that constants need:
an interned type table and constant table (one id per distinct entry), the
`Function` variables that back constant pointers, the values marked as unusable
("zombies") and the global allocations that pointers in constant memory refer
to. On top of it, it builds integer, float, bool, null, undefined and composite
constants, structs laid out from their fields' types, string constants, and it
turns the bytes of a constant memory allocation into a tree of SPIR-V constants.

Every operation states, over a mathematical model of the context (`CxModel`),
which value it returns and exactly which entries and marks it adds when it
succeeds, on which inputs it fails and with which error, and that it keeps the
context's invariant. Reading constant memory is stated through `build`: the
value and state that defining the decoded constants one after another gives.

## Layout

- `src/types.rs`: SPIR-V types, constants, values, error kinds.
- `src/cx.rs`: the context, its model and invariant, interning of types and
  constants, constant pointers, zombie marks, global allocations.
- `src/abi.rs`: scalar kinds and their sizes.
- `src/constant.rs`: the constant builders.
- `src/layout.rs`: the automatic struct layout.
- `src/memory.rs`: constant allocations and the little-endian scalar read.
- `src/decode.rs`: what constant memory means at a type (`decode_alloc`),
  what building that meaning gives (`build`), and
  when a value of the module stands for such a meaning (`denotes`).
- `src/const_alloc.rs`: the reading of constant memory into constants.
- `src/laws.rs`: properties that span several calls.
- `app/lib.rs`: the float-valued entry points (they pass bit patterns to the
  library) and the text of the diagnostics.

# lib

Native implementations of morloc's root typeclasses and list operations (booleans,
arithmetic, numeric conversions, sizes, semigroup/functor/foldable instances, stacks and
queues over `Vec` and `VecDeque`, Python-style indexing and slicing, a stable merge sort,
grouping, uniqueness and ranges), with their behaviour stated in Verus contracts and proved.

- `src/` is the verified library: `basics`, `arith`, `convert`, `lists`, `deque`, `index`,
  `listops`, `sort`, `units`. Everything is re-exported from the crate root.
- `app/` holds the floating-point instances, which cannot be verified, and front ends that
  test the library's preconditions and refuse bad input with morloc's error messages.
- `tests/` runs the library on concrete values.

# learn_rust_with_tests

The example programs of a test-driven Rust course, with their behaviour
stated as Verus contracts and proved.

- `src/` is the verified library, one module per chapter and one submodule
  per step of it (`v1`, `v2`, ...). `text`, `output` and `players` hold what
  several chapters share. The main results are the equivalence of the
  bytecode machine and the tree-walking interpreter (`interpreter::v4`), the
  laws of the LRU caches (`lru::v1`), the dictionary's read-after-write
  (`hashmaps`) and the ranking of the poker league (`players`).
- `tests/` runs the library on the chapters' examples.
- `app/` is what stands around the library: the HTTP servers, the files and
  terminals, the clock face's floating-point arithmetic, and the programs.

# zeebx — control state of the Dynarmic A32 core

The emulator runs ARM guest code through the Dynarmic recompiler. The recompiler executes; this
crate decides, and Verus proves the decisions.

- `src/paginas.rs`: the set of guest pages already fetched as code (one bit per page).
- `src/sujas.rs`: the pages whose translated code a write has made stale.
- `src/vigias.rs`: write watches, with the bounding interval and the dirty-range shortcut.
- `src/tabela.rs`: the page table entry each guest page gets from the region layout.
- `src/estado.rs`: the state the recompiler's callbacks work on — fetches, guest reads and
  writes, supervisor calls and semihosting, the instruction budget, exceptions, watches and the
  page table — and its invariant: a page served directly is neither code nor watched.
- `src/cpu.rs`: the core as the dispatcher sees it — reset, watches, host writes, how a run is
  prepared (Thumb interworking) and how it ends (stop-reason classification).
- `app/lib.rs`: the recompiler's callbacks, the raw page table, registers and guest memory,
  each forwarding its decision to the crate.

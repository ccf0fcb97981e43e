# Ignite

Ignite is the UEFI boot loader of Redstone OS. This crate holds its
decisions as a verified Verus library; the firmware calls live in `app/`.

## Layout

- `src/memory/`: page tables (`paging.rs`, with `translate` and `leaf` as
  the meaning of the tables, and `export` handing every table out to be
  written to its frame; the frame requests made for new tables are
  recorded, so failures are tied to what the allocator gave back; `new`
  records its root-frame request in a `RequestLog`), the bump
  heap, the firmware memory map and regions.
- `src/protos/`: boot protocols (Redstone, Multiboot 1, Limine, Linux,
  chainloading) and the hand-off structures.
- `src/recovery/`: boot attempts kept in NVRAM and the choice of entry.
- `src/security/`: Secure Boot state, policy, rollback protection and
  integrity checks (SHA-256 and BLAKE2b, each stated against its own spec
  function).
- `src/os/`: what the UEFI environment hands over (keys, configuration
  tables, device paths, display EDID, disk blocks, memory map).
- `app/`: the firmware glue: page allocation, the memory map, variables,
  protocols, files, video modes and the serial port.
- `tests/`: tests of the library on concrete values.

Every public function states its result in `ensures`; laws that span
several functions are public proof functions whose names start with `law_`.

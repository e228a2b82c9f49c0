# neotools

Host-side tools for NeoDOS binaries and packages, with their logic verified in Verus.

- `src/` is the verified library:
  - `bytes`, `text`, `seqs`: little-endian fields, NUL-terminated names, lossy UTF-8, and facts about byte layouts.
  - `crc`: table-driven CRC-32, proved equal to the bit-by-bit definition.
  - `elf`, `names`: the ELF64 header, program-header and section tables, the NXE validity check, and the names given to codes.
  - `notes`: ELF notes and the NeoDOS metadata block (lookup, listing, summary, JSON fields).
  - `report`: the inspector's JSON report, rendered with serde_json.
  - `dump`: hex rows, printable strings, loadable segments and relative relocations.
  - `nxp`, `package`, `manifest`: reading, checking and writing NXP packages and their `neopkg.toml` manifest.
  - `package_laws`: what reading gives back of a package that was just built.
- `app/` holds the command-line front ends `nxeinfo`, `nxpkg` and `nxdump` (argument handling, files, printing).
- `tests/` runs the library on concrete inputs.

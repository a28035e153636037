# svdtools

Tools for CMSIS-SVD device descriptions: patching them with YAML rule files,
listing interrupts, writing a memory map, extracting enumerations, finding
copies among peripherals, registers and fields, and Make dependency lists.

- `src/` is the library, written and proved with Verus. `model.rs` holds the
  device description; `patch/` the patch rules (name matching, deletions,
  renames, additions, copies, derivations, arrays and clusters, enumerations,
  the YAML mapping and `_include` merging); `interrupts/`, `mmap.rs`,
  `enum_extract.rs`, `analyze.rs` and `makedeps.rs` the other tools.
- `app/` is the command line program around it: it reads and writes files,
  parses and encodes SVD with `svd-parser` and `svd-encoder`, loads YAML with
  `yaml-rust`, and hands plain values to the library.
- `tests/` exercise the library.

Glob matching is done by `globset`: patterns of more than 1000 characters or
more than 32 opening braces are refused as invalid, and a name that contains a
backslash matches no glob.

# conda_ship

A builder stamps a copy of a runtime template with a JSON header, an optional package bundle and
a 100-byte footer. The runtime finds that data in its own executable, before and after the
executable was signed. This library does both on file images in memory, and states what it does
in contracts that Verus proves.

- `runtime_data`, `payload`, `footer`, `header`, `bundle`: what is stamped, and the stamp itself.
- `runtime_reader`: finding a stamp again.
- `executable`, `macho`, `pe`, `capability`: which executables are accepted, and how their
  headers change.
- `bundle_builder`, `lock_file`, `bootstrap_lock`, `snapshot`: what the builder decides about
  packages, locks and files that change while they are read.
- `object_file`, `lock_file`, `digest`: the calls into `object`, `rattler_lock` and `sha2`, whose
  contracts are trusted.
- `laws`, `macho::laws`, `macho::growth`, `macho::round_trip`, `macho::signing`, `pe::laws`,
  `pe::round_trip`, `pe::signing`: what holds of these together. What was stamped is read back,
  native signing keeps it, and nothing in a signature is ever taken for a stamp.

`app/` reads and writes the files, parses headers, takes locks and downloads packages.

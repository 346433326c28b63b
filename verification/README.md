# cpan_distribution_meta

Parse CPAN distribution meta files (`META.json` / `META.yml`) of any spec version,
in JSON or YAML, into one typed structure normalised to spec version 2. The
library is written in Verus: each function carries a contract, and Verus proves
the code against it.

Layout:

- `src/lib.rs`: the entry points (`parse`, `parse_json`, `parse_yaml`,
  `parse_slice`, `build`) and the spec functions that say what each returns.
- `src/document.rs`: the calls into `serde_json` and `serde_norway` that read text
  into a document value, and into `std` for UTF-8 decoding.
- `src/value.rs`: the document value model (`Value`) and its mathematical view.
- `src/convert.rs`: normalisation of a document to the version 2 structure, step
  by step, each step with an exact specification.
- `src/assemble.rs`: reading the normalised document into `Meta`.
- `src/meta.rs`, `src/smap.rs`: the metadata types and the sorted string-keyed map
  they use.
- `src/spec.rs`: spec versions and their detection.
- `src/version_range.rs`: the version-range mini-language.
- `src/text.rs`: character-level text helpers.
- `src/laws.rs`: properties of the library as a whole, proved.
- `app/`: reading from readers and files, serde forms of the types and the
  `std::error::Error` form of the error.
- `tests/`: tests on concrete inputs.

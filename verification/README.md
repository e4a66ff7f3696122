# android_localization

Helps ship the texts of an Android module's `strings.xml` files off to be
localized and bring the localized texts back in, and runs a few common
validations on those files.

- `localize` writes CSV files of the default strings that each foreign locale
  lacks; locales that lack the same strings share one file.
- `localized` reads a CSV file of localized texts and merges them into the
  foreign locales' `strings.xml` files: a text is taken only where the default
  value it was localized from is still the default value.
- `validate` looks for unescaped apostrophes, for format strings that differ
  from the default locale's and for strings missing on either side.

## Layout

- `src/` is the library, verified with Verus: the string types, the list
  operations (sorting, merging, deduplicating, extracting), the walks over two
  sorted lists, the XML and CSV readers and writers, the validations and the
  report they print, and what the command line front end decides. The calls
  into the `regex`, `csv` and `xml-rs` crates are in `src/external.rs`, each
  with the contract it is trusted to meet.
- `tests/` holds the tests of the library.
- `app/` is the command line program: argument parsing (`clap`), reading and
  writing files, and printing (`console`).

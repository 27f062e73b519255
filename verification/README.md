# yx

Tag your files with your own tags and find them again. The whole state of a
tag library lives in an index file, `.yx_index`.

- `src/` is the library, verified with Verus: the tag index and its edits
  (`index`, `stringset`, `sub`), constraints (`classes`, `constraints`),
  scribing tags out of file names (`scribe`), paths relative to the index
  (`paths`) and when two paths name the same place (`pathkey`), reading the
  command line (`cli`), text helpers (`text`), errors (`error`) and
  properties of the whole (`laws`).
- `app/` is the `yx` program around it: it reads and writes the index file
  (JSON through serde), walks directories, copies and moves files, prompts and
  prints.
- `tests/` runs the library on concrete values.

Paths follow Unix rules: the working directory handed to the library is an
absolute path starting with `/`, and two paths are the same when their
components are (`a//b/` and `a/b` name one file).

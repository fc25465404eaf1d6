# casc-extract

Fetches game assets from a CASC content delivery network.

- `src/` is the library, verified with Verus: products and sessions (`cdn`),
  archive indices and requests (`archive`), the list of file names and searches
  (`resolve`), what is saved and under which name (`download`), the commands
  (`cli`), and the text, path and hexadecimal helpers under them.
- `app/` is the program around it: the command line, files, HTTP, and the CASC
  file formats. Where an operation alternates between decisions and input or
  output, the library gives the next step for each event and the program
  performs it. `app/lib.rs` offers its modules to other programs, with functions
  that fetch content by its encoding key.
- `tests/` runs the library on concrete values.

The library trusts four outside calls: `hex::encode`, `hex::decode`,
`str::to_lowercase` and `String::from_utf8`. Each stands in one small function
whose contract says what is relied on.

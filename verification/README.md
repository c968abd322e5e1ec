# sap_time_extractor

Reads SAP time statements. The text of a statement (taken from its PDF with
`lopdf`) is cut into blocks that start after a `DWS` marker; each block holds
day lines in several shapes, and each day line gives a `TimeLine`: the day,
the hours, the hours after the pause, and the kind of work. The hours are then
split by where they were worked (office, home, travel).

- `src/` is the verified library: character scanning (`text`), the fields of
  a line (`fields`), line shapes (`lines`), the statement reader (`parsers`),
  the PDF text (`pdf`), and the types and the split of hours (`lib.rs`).
  Every parser is stated against a spec function over the characters of its
  input.
- `app/` is the program around it: the command line, reading files, the
  WebAssembly entry point, the JSON form with hours as `f32`, and the
  floating-point totals and ratios.

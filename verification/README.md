# thu_learn_cli

A command-line client for Tsinghua University's Web Learning, built around a library
whose logic is verified with Verus.

* `src/` is the verified library: parsing Learn's reply text as JSON and reading the
  values, homework pages, HTML-to-text rendering, `Content-Disposition` file names,
  deadlines, short IDs and ID resolution, completion candidates, table rendering, which
  homework is listed and in what order, the browser-login wait, whether a cached list
  (kept for six hours) is fresh enough, and the request URLs and forms. Each public
  function states its result in its contract; the `law_*` proof functions state
  properties across inputs and functions.
* `app/` is the `thu-learn` program around it: argument parsing, HTTP, the browser,
  reading and writing the disk cache and printing.
* `tests/` runs the library on concrete inputs.

Calls into outside crates (serde_json, chrono, unicode-width, owo-colors, directories,
url, and a few std functions) sit behind small trusted wrappers whose contracts say what
the crate documents, or name the result where that takes pages to state.

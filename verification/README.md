# rgvg

`cg` finds code with grep, ripgrep or ugrep and keeps the results of the
last search; `vg` opens one of those results in an editor.

The library in `src/` holds the logic, each function with a contract that
Verus proves:

- `text`: decimal rendering and parsing, text order, splitting, UTF-8
  truncation and trimming.
- `framework`: names, arguments and entries of a tool's command line, and
  the bundle that files entries in name order.
- `tools`: the search tools and how a request becomes their command line.
- `pattern`: the regular-expression searches made with the `regex` crate.
- `output`: reading a tool's output into matches.
- `common`: matches, the on-disk format of the last search, and how results
  are shown.
- `search`: the decisions of a search run (dry run, outcome, result order).
- `open`: the editor registry and the command that opens a result.

`app/` holds the programs themselves: argument parsing, files in the home
directory, running commands and printing.

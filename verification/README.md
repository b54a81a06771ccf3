# svnguitool

A desktop browser of SVN commit history (Slint window), with its core
verified by Verus.

- `src/` — the verified library:
  - `diff` — classification and colouring of `svn diff` lines;
  - `state` — the commit filter and the reading of the filter panel;
  - `svn` — repository data, the `svn` command lines, the reading of
    `svn info --xml` / `svn log -v --xml` output and of a command's outcome;
    `svn::libsvn` — log entries as the Subversion library reports them;
  - `xml` — XML events as `quick_xml` reads them;
  - `paging` — reloading the list and fetching older batches on scroll;
  - `browse` — rows, selection and the diff pane;
  - `config` — the `.svnguitool.json` file;
  - `dates`, `text` — calendar dates and character-level text handling.
- `app/` — the window, worker threads, file access and the two svn
  backends (the `svn` program; libsvn on macOS).
- `tests/` — tests of the library.

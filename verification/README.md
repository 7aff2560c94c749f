# mdquery

SQL-like queries over the YAML front matter of markdown files, with the
query logic verified by Verus.

```bash
mdquery "SELECT title, date FROM ./notes WHERE status = 'published' ORDER BY date DESC"
mdquery "SELECT path FROM . WHERE tags CONTAINS 'rust'" --format json
```

## Layout

- `src/` — the verified library: query preprocessing and parsing (through
  `sqlparser`), evaluation of WHERE expressions, sorting, grouping,
  projection, DISTINCT, the row and value model, front matter reading
  (through `serde_yml` and `gray_matter`) and table/CSV rendering. Each public function states its result in its
  contract; the laws of the query language (what a filter keeps, what
  DISTINCT and GROUP BY give, LIMIT and OFFSET, LIKE patterns, date
  arithmetic) are proof functions named `law_*`.
- `app/` — the command line program: argument handling, walking the
  directory, reading files, reading the texts of float literals into
  doubles (the library keeps no floats) and writing JSON.
- `tests/` — tests of the library on concrete values.

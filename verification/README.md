# pg_strings

String functions of PostgreSQL for the DataFusion query engine, verified with Verus:
`pg_client_encoding`, `to_ascii`, `format` (also `sprintf`), `quote_literal`,
`quote_nullable`, `normalize`, `casefold`, `unicode_assigned` and `unistr`.

- `src/` is the library. Every function states in its contract what it returns, errors
  included, and Verus proves it. The Unicode character data come from `icu_casemap`,
  `icu_properties` and `unicode-normalization`; each call into them stands in a small
  wrapper whose contract is trusted.
- `tests/` runs the library on concrete values.
- `app/` registers the functions with DataFusion and converts its values.

An SQL value of any type that is NULL counts as NULL for `format`. The `%L` conversion
is `quote_nullable`: a text with a backslash takes the `E'...'` form.

# bg3_refdb

A library that turns the data files of a game into SQLite reference databases, and
that edits mods in staging databases of the same shape. What it computes is
verified with Verus; what it reads and writes is left to the program around it.

The library never touches a file or a database. It takes what was read, as plain
values, and gives back statements to run, queries to ask, or answers made up from
rows. `app/` opens the files and databases, runs the statements and hands back what
came of them.

| Modules | What they do |
|---|---|
| `text`, `order`, `textmap`, `reals`, `types`, `models` | texts, sorting, maps, numbers, values, data models |
| `files`, `collect`, `memory`, `pipeline` | which files are read, in which order, and where they go |
| `stats_text`, `stats_parse`, `stats_lists`, `loca`, `parsed` | the formats of stats and localization files |
| `discovery`, `stats_discovery`, `fixed_tables`, `fk_patterns`, `references`, `schema`, `schema_build`, `schema_laws` | the tables that the files call for, with keys and references |
| `ddl`, `rows`, `row_fill`, `tree_insert`, `insert`, `allspark`, `effects`, `batches`, `partition`, `backfill` | filling a database |
| `cross_db` | references that other databases resolve |
| `select`, `queries`, `lookups`, `schema_query`, `scan`, `infer` | reading a database |
| `staging_ddl`, `staging`, `staging_laws`, `undo` | editing a mod, and undoing edits |
| `lsx_writer`, `entities` | writing entries as XML, and its entities |

Every executable function states what it returns; `law_…` functions state what holds
across functions.

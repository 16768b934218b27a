# loadout

A local environment manager built around explicit desired state: profiles of
components and features are resolved, compiled into desired resources,
diffed against recorded state into a plan, and executed.

- `src/` is the verified library (Verus). Each public function states its
  result over a mathematical model (`Seq`, `Map`, views of the data types);
  laws that relate several functions are public proof functions named
  `law_*`. Config files, state and indexes are handled as plain values:
  maps are `StrMap` (ordered by key), YAML documents are `yaml::YamlValue`.
- `app/` is the plumbing around it: reading and atomically writing files,
  turning typed config files into the library's values (untyped YAML
  documents are parsed by the library itself), running scripts and probing tools,
  and driving plan execution with backends supplied by the caller.
- `tests/` exercises the library on concrete values.

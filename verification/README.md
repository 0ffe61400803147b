# template_repo

A library for template repositories: directories of templates, each described
by a `meta.json`, copied into a target directory with placeholders such as
`{{name}}` filled in. Templates may extend other templates of their repository.

- `src/` is the verified library (Verus): configuration, repositories and
  their directory naming, loading templates from a directory listing, looking
  templates up, planning a copy (super templates first, then the script, then
  the template's own files), deciding what happens to each copied entry, and
  filling in placeholders.
- `app/` carries out what the library decides: prompts, the file system, git,
  scripts, and reading `meta.json`.
- `tests/` runs the library on concrete values.

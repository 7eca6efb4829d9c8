# gc_core

A verified library for centralising audio genre tags onto a taxonomy of
canonical genres.

- `src/text.rs`: normalisation of a genre tag (letters and digits, lowercased).
- `src/taxonomy.rs`: the taxonomy, its well-formedness, loading a taxonomy
  document, classifying a tag, adding aliases, merging a user's document.
- `src/builtin.rs`: the built-in taxonomy and the flat built-in alias table.
- `src/suggest.rs`: fuzzy suggestions of canonical genres for an unknown tag.
- `src/scan.rs`: the bookkeeping of a scan over MP3 files.
- `src/user.rs`, `src/prompt.rs`: the user's aliases and answers.
- `src/laws.rs`: laws of the taxonomy, proved over the same models.
- `app/`: the command-line program (directory walking, tag reading and
  writing, YAML, prompting).

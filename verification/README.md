# lib: verified path helpers

Path handling for an object-storage access layer, written in Verus.

- `src/spec.rs`: the model. A path is its sequence of characters; `components`,
  `normalized_path`, `normalized_root`, `basename`, `parent`, `absolute_path`,
  `rooted_absolute_path`, `relative_path` and `tmp_path` say what each
  operation computes.
- `src/path.rs`: the operations, each with a contract over the model.
- `src/laws.rs`: properties that span operations (idempotent normalization,
  a relative path undoing an absolute one, parent and basename recomposing a path).
- `src/lemmas.rs`: facts about splitting and joining at `/` that the proofs use.
- `src/text.rs`: character-level string access.

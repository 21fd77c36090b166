# AetherLink

Architectural guardrails for code bases that agents write to: an MCP server and
a `PreToolUse` hook that enforce a project's rules before a write touches the
disk. The rules stand in `AetherLink.toml`:

```toml
[rules]
# Reject any source file longer than this many lines.
max_file_lines = 500

# Block circular dependencies in the import graph.
no_cycles = true

# Block specific cross-folder imports. Each side matches any directory component
# of a file's path, up to the case of its letters.
forbidden_imports = ["ui -> db", "api -> secret"]

# Report violations instead of blocking writes.
severity = "warn"

# Another limit for some files; the last one that matches counts.
[[overrides]]
path = "data/**"
max_file_lines = 2000
```

## Layout

- `src/` is the library. Its functions are verified with Verus: each states in
  its contract what it returns, and the functions named `law_...` state what
  holds across functions (an accepted path lies inside the project root, a
  baseline freezes exactly the violations that it was made of, the dry run
  foretells the guarded write, a rule that was added is read back, and so on).
- `tests/` runs the library.
- `app/` is the program around it: arguments, standard streams, files, toasts
  and the tray icon.

## What is taken on trust

The contracts of functions of other crates are stated and not proved. They stand
together in `src/json.rs` (`serde_json`), `src/rules/toml_doc.rs` (`toml`),
`src/graph/store.rs` (`petgraph`) and `src/scanner/syntax.rs` (`tree-sitter`);
the two clocks are read in `src/mcp/lease.rs` and `src/status.rs`.

## Bypass

A file named `.aetherlink_bypass` in the project root lets writes through, with a
warning, until it is deleted. It never lets a write leave the project root.

# good_fences

A fence checker for JavaScript/TypeScript workspaces, with its core written
in Verus and proved against its contracts.

- `src/` is the verified library: fence files and their rules, fence
  evaluation of resolved imports, package names and `package.json` export
  maps, module resolution decisions (tsconfig `paths`, the steps of resolving
  a specifier to a file, the walk up parent directories, the search of
  `node_modules` directories with its per-directory memory, browser
  rewrites), the segment graph and its tag propagation, leading comments and
  line/column positions, the statement segmenter and the dynamic
  `import()`/`require()` calls of a statement, the patch
  file format, and the error and logger types. Calls into outside crates
  (`glob`, `regex`, `path-clean`, `relative-path`, `pathdiff`, `diffy`) go through
  small trusted wrappers whose contracts are stated next to them.
- `app/` holds what is not verified: reading files and directories, JSON
  parsing with serde, the walk over the workspace, and the loops that
  alternate file-system probes with the library's decisions.
- `tests/` runs the library on concrete inputs.

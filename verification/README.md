# LocaleBreeze

A language server for translation keys: it knows the keys that JSON dictionaries hold and the places
in TypeScript and JavaScript that use them, and answers an editor's questions about both.

## Layout

- `src/` is the library. Verus proves the contract of every function in it, but for the small
  wrappers behind which `tree-sitter`, `serde_json`, `globset`, `url` and parts of the standard
  library stand: their contracts are taken on trust, and their doc comments say what that is.
- `src/laws.rs` states what holds of the library as a whole.
- `app/` is the program around it: arguments, files on disk, watchers, and the language server
  protocol.
- `tests/` runs the library with the real outside crates.

## Modules

| Module | What it holds |
| --- | --- |
| `text`, `search`, `chars`, `sort`, `lookup` | texts and lists |
| `path`, `names`, `urls` | paths as Posix and Windows read them, their texts, and their URIs |
| `key` | translation keys, scopes, namespaces |
| `syntax`, `source`, `analysis` | syntax trees, and the keys that source code uses |
| `json`, `dictionary` | JSON texts, and the keys that dictionaries hold |
| `pattern`, `config`, `issue` | the configuration, and what can be wrong with it |
| `index`, `completion`, `workspace` | the index of a workspace, and how it changes |
| `line_index`, `position`, `navigation`, `edit` | places in texts, what is found there, and edits |
| `diagnostics`, `status`, `commands` | what an editor is told of a workspace |
| `protocol`, `server`, `arguments` | the server: its state, and what it does when an editor speaks |

## Running

```text
locale-breeze lsp --stdio [--config <path>] [--unused-keys <true|false>]
```

A workspace has a `locale-breeze.json` at its root that names its dictionaries by a relative pattern
with exactly one `{locale}` token and at most one `{namespace}` token.

# Ansible Vault for Zed

A language server that encrypts and decrypts Ansible Vault files and `!vault`
values in YAML documents, reports damaged Vault headers and payloads, and repairs
headers where it can tell what they were meant to be. An editor extension installs
and starts the server.

## Layout

- `src/` is the library: everything that is decided or computed, with contracts
  that Verus proves.
- `app/` is the program around it: the language server protocol, processes, files
  and the editor extension.
- `tests/` runs the library.

## The library

Texts are sequences of characters. Byte offsets, and the line and column pairs of
the protocol, are stated over them.

| Module | What it is about |
| --- | --- |
| `text`, `bytes`, `distance`, `digest`, `paths` | characters, bytes, edit distance, digests, paths |
| `document` | positions in a document |
| `header` | Vault headers and their repair |
| `validation`, `repair` | what is wrong with a document, and what a repair changes |
| `nesting`, `syntax`, `yaml` | how deep a text goes, the syntax tree, and the value that a cursor points at |
| `writing`, `roundtrip` | writing values, and reading them again |
| `vault`, `operation`, `process` | arguments for `ansible-vault` and its answers |
| `config`, `workspace` | settings and workspace folders |
| `preflight`, `prompt` | the checks before an operation, and the password dialog |
| `actions` | the code actions that are offered |
| `session` | an operation from the click to its end |
| `active` | the documents on which an operation is running |
| `extension`, `install` | the release of the server and its installation |
| `error` | what the user is told |

`preflight`, `prompt`, `session` and `install` are step machines. Each names the
next piece of work and is told what came of it; the program does the work.

YAML is parsed with tree-sitter, quoted and block scalars are read with
serde-saphyr, and digests come from sha2. What these crates return is not proved;
the contracts name it.

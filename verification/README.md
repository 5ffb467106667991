# openconfig

An editor for the provider and model section of opencode configuration
files (`opencode.json` / `opencode.jsonc`), with its core verified in Verus.

- `src/` is the verified library:
  - `jsonc` removes `//` and `/* */` comments from JSONC text, leaving string
    literals alone, and refuses text with an open string or block comment;
  - `paths` finds the configuration file (candidate locations, first that
    exists, the found-files list) and gives its WSL path;
  - `strmap` is a map from strings kept sorted by key, the map kind of the
    configuration;
  - `editor` holds the configuration as the editor edits it and its rules:
    adding, listing, renaming and deleting providers, adding, renaming and
    removing models, the model counter, and adding fetched models;
  - `fetch` builds the model-list request, reads the model ids from the
    answer, and runs the model picker's states;
  - `json` reads and writes JSON text (through serde_json) and holds JSON
    values as plain data; `text`, `number`, `order` are text helpers,
    decimal numbers and the order of strings.
- `app/` is the desktop front end (egui), the Tauri commands, file and
  network access and the serde forms of the library's types.
- `tests/` runs the library on concrete values.

# editor_builtins

The built-in plugins of a terminal code editor: file explorer, find and replace, project search,
multiple cursors, modal (vim) editing, completion, diagnostics and the other language-server
features, source control, the terminal dock, and viewers for hex dumps and PDF text.

`src/` is the verified library. Each plugin is a state machine: a method takes an event together with
plain values read from the editor (a document snapshot, selections, positions), changes the plugin's
state, and returns the requests (`effect::Effect`) for the editor to perform. Contracts are stated
over views of the state and of the requests.

- `doc`, `effect`, `ui`, `key`, `protocol`, `contribution`: the values that pass between the plugins
  and the editor
- `text`, `bytes`, `number`, `format`, `order`, `path`, `place`, `pattern`, `annotation`:
  common ground
- `explorer`, `find`, `project_search`, `scm`, `completion`, `snippet`, `diagnostics`, `vim`, `pdf`,
  `hexview`, `terminal` and the rest: one module or folder for each feature
- `builtins`: the list of plugins that the editor mounts

`app/` holds what touches the outside: walking and reading files, background jobs, running `git`, and
handing events to the plugins.

`tests/` runs the library.

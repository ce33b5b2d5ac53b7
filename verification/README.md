# dextui

A terminal browser for [dex](https://dex.rip/) tasks: the task tree, the detail
of one task, and a sidebar of repos and their worktrees. It refreshes itself
whenever the store changes, without moving the selection, collapsing the tree or
interrupting an open dialog.

`src/` is the library: the task model, the tree, the view state with its keys,
mouse and messages, the config, the registry of saved repos, and the text
handling underneath. All of it is verified with Verus, and each module ends with
what it promises as a whole. What the library asks of the outside comes out as
values (`effects::Effect`); what the outside answers goes in as values
(`effects::Msg`).

- `text`, `order`, `input`: text as sequences of characters, stable sorting, a
  one-line text field
- `dex`, `tree`, `counts`: tasks, the forest they form, what the header counts
- `app`, `refresh`, `panes`, `sidebar`, `modes`, `actions`, `events`, `saving`:
  the view state and everything that changes it
- `keys`, `cli`, `config`, `registry`, `repos`, `worktree`: what is read
- `icons`, `theme`, `markdown`, `pulse`: how it looks
- `clipboard`, `editor`, `log`, `effects`: what is handed on

`app/` is the program around it: the process calls, the files, the terminal.
`tests/` runs the library on concrete values.

# concats

The decisions of a tool that keeps the history of coding-agent sessions in git
and reviews diffs, as a verified library: what a reference to a turn names, what
an import of comments writes, which rows of a review are on screen, what a key
or a click does.

- `src/` is the library. Every function states what it returns or changes, and
  Verus proves it. Properties that span functions are public proof functions
  with names that read as sentences (`a_reply_joins_the_root`,
  `importing_again_changes_nothing`).
- `tests/` runs the library on concrete values, with the outside crates linked.
- `app/` is the program around it: the command line, the settings, the terminal.
  It reads the agent to use when none is named from the `[first]` table (`id`,
  `name`) of an `agents.toml` that is installed beside it.

What the library takes from outside crates stands behind functions marked
`external_body`, each with the facts that are taken over from the crate:

| module                       | crate             | what                              |
|------------------------------|-------------------|-----------------------------------|
| `text`                       | std               | `str::to_lowercase`, `String::push` |
| `live_id`                    | makepad-live-id   | the id of a name                  |
| `timestamp`                  | time              | RFC 3339                          |
| `geometry`                   | ratatui           | dividing an area                  |
| `components::list_navigation`| tui-widget-list   | the state of a list               |
| `components::text_input`     | ratatui-textarea  | a box for text                    |

Positions and sizes are integers: thousandths of a point in the window, cells in
the terminal.

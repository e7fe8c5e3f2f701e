# it_tui

A terminal monitor for Flutter apps driven through the interaction-tree
daemon: it shows the app's logs, the agent chat, the interactions and the
compacted widget tree, and sends the daemon commands from hotkeys.

The state, the decisions and the formats are a Verus library, each
function proved against its contract:

- `address`: the path language for widgets (`id`, `id[n]`, `id:variant`,
  `id.child`), its parser and its printer.
- `tree_format`: compacting sibling widgets, context grouping, schemas and
  the printable tree; `tree_laws`: what compaction and grouping promise.
- `tree_json`, `protocol`, `chat`, `flutter_log`: reading what the daemon
  and `flutter run --machine` send, and the wait for the daemon's greeting.
- `app`, `session`, `event`, `command`: the monitor's state and how keys,
  mouse wheel turns, commands and daemon messages change it.
- `tree_view`, `help_bar`, `tool_text`: what the panes show, down to the
  items of the tree pane.

`app/` holds the terminal front end: the WebSocket client, the project
directory lookup, drawing with ratatui and the event loop.

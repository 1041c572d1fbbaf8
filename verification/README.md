# bosun

The logic of a session manager for tmux, verified with Verus: configurable
shortcuts, the bytes that keys are sent as, the requests that install and remove
key bindings and status bars on a tmux server, and the text of the screen's
status bar.

- `src/` is the library. It runs nothing itself: it says which tmux requests to
  run (`tmux::command::Request`) and takes the replies.
  - `keybindings` parses shortcuts, resolves a configuration and routes keys.
  - `ui::key_encode` encodes keys, `ui::statusbar` lays out the status bar.
  - `tmux::attach` installs shortcuts on a server and restores what they
    replaced; `tmux::status_bar` sets up the bar of a session and the jump keys.
  - `key`, `text`, `text_map` and `error` are what these are made of.
- `tests/` runs it.
- `app/` is the program round it: it runs tmux, reads events and draws.

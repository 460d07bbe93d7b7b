# rusty_ui

The decisions behind an embedded Rust workbench's window, verified with
Verus: the menus and the palette, what an action comes to, the editor's tabs
and groups, saving, the git panel's commands, the language server's asks and
answers, the call hierarchy, devices and flashing, the debugger's
breakpoints and the assistant's conversation.

Each decision is a function from plain values to plain values with a
contract: it is given the state it reads and answers with what is to be
done. The window that holds that state and carries the answers out is not
part of this repository.

- `src/` — the verified library, one module per area.
- `tests/` — the library's tests, run against the compiled crate.
- `app/` — the arithmetic the window does in floating point.

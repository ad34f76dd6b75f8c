# ziro

A small terminal text editor, written as a verified library (`src/`) and a
thin terminal program around it (`app/`).

`src/` holds the editor's logic with contracts that Verus proves: the text
model (byte columns into UTF-8 lines), editing, undo and redo, the keyboard
and mouse, tabs, the file explorer, the bookkeeping of the language-server
connection (numbering requests, framing messages, reading their headers)
and what the editor does with its messages, syntax highlighting on top of
syntect (which grammar, which theme, how its pieces are shown), and where
each part of the screen goes, on top of ratatui's layout solver. Whatever
needs the disk, the clipboard, the terminal or a child process is handed
back as an `Effect`, carried out by `app/`, and its outcome returned through
a `finish_*` call.

Keys: Esc opens the command line, where `:w` saves, `:q` quits (refused
while the text is unsaved), and `:wq` or `:x` save and quit once the save
succeeds; Ctrl+S saves, Ctrl+Alt+W quits, Ctrl+Z and Ctrl+Shift+Z undo and
redo, Ctrl+V pastes, Ctrl+E shows the explorer and Ctrl+W closes the tab.

`app/` reads terminal events with crossterm, draws with ratatui, reads the
clipboard with arboard, speaks JSON to the language server with
serde_json, and reads the editor's own theme file (`assets/ZiroDark.tmTheme`)
when it starts.

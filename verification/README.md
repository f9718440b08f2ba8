# logoscope

A terminal viewer for log files: it opens a file or follows what is piped into it, moves through
the lines, searches and filters them without regard to case, and shows a line that holds JSON laid
out and coloured.

The library under `src/` is written in Verus. It holds the state of the viewer, what each key does
to it, and what the screen shows. The program under `app/` reads files, standard input and keys,
draws, and starts the editor; what goes with that is decided there: when to stop reading, which
editor to start where none is set, the colour of the frame around the log.

## Layout

| Module | What it is about |
|---|---|
| `state` | the state of the viewer as mathematics: what is seen, and how each operation changes it |
| `app` | the viewer itself, and the operations on it |
| `app::screen` | what the viewer shows |
| `laws` | what holds of the viewer whatever is done with it |
| `keys`, `source`, `area` | keys, where the log comes from, rectangles of the terminal |
| `matching` | which lines a query finds |
| `highlight` | a line as it is shown, with the matches in it marked |
| `json`, `json_laws` | recognising and pretty-printing JSON |
| `colorize`, `number`, `style` | colours for a line of JSON, number literals, styled text |
| `text` | characters and strings |
| `bridge` | what is taken on trust from std and from ratatui |

## Keys

| Key | Action |
|---|---|
| `j` / `k` | Move down / up |
| `Ctrl-d` / `Ctrl-u` | Half a page down / up |
| `Ctrl-f` / `Ctrl-b` | A page down / up |
| `g` / `G` | Go to top / bottom |
| `F` | Toggle follow mode |
| `/` | Search |
| `n` / `N` | Next / previous match |
| `\` | Filter lines |
| `Space` | Toggle the detail panel |
| `Enter` | Open the line in `$EDITOR` |
| `Esc` | Close the panel / clear the filter / clear the search |
| `q` | Quit |

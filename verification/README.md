# qingmo (清墨)

A novel-writing workbench: chapters as Markdown files, a structure tree
(outline → volume → chapter → section), world objects with links,
foreshadows, milestones, and an LLM assistant with prompt templates and a
request history.

The library in `src/` holds the logic of the workbench, each function with a
contract proved by Verus:

| module        | what it holds |
|---------------|---------------|
| `text`        | character-level text helpers (trim, lines, replace, join) |
| `markdown`    | Markdown → plain text, word counting |
| `outline`     | heading extraction and nesting into the structure tree |
| `models`      | the data model and the structure-tree operations |
| `foreshadows` | the foreshadow Markdown file, written and read back |
| `files`       | open files, the file tree order, path naming rules, search hits |
| `editing`     | editor operations, match replacement, the undo history |
| `find`        | the find / replace bar |
| `objects`     | editing the world-object list with a stable selection |
| `context`     | context blocks for LLM prompts |
| `llm`         | prompt templates and backend decisions |
| `history`     | filtering and browsing the LLM history |
| `cli`         | the `qingmo llm` command line |
| `date`        | calendar dates and clock labels |
| `session`     | session rules (word tally, auto-save, status tone) |

`app/` is the program around it: the eframe window, disk and network work,
the JSON forms of the data, and the command-line entry point.

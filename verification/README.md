# ticgit web view

A verified library for the web view of a ticket store: it reads requests, decides what they ask
for, and makes the pages. Every function in `src/` is verified against its contract; the few calls
into `std`, `uuid`, `time` and `serde_json` that Verus cannot see into carry a stated one.

| module | what it holds |
| --- | --- |
| `text`, `number`, `percent`, `html` | texts, numbers, percent-encoding, escaping and the page frame |
| `request`, `response`, `serve` | requests, responses, and which answer a request gets |
| `query`, `page` | the list filters, their links, and the header of a page |
| `ticket`, `moment`, `lifecycle` | tickets, points in time, and a ticket's way through its states |
| `nesting`, `list`, `kanban`, `detail`, `flow` | the order of nested tickets, and the pages |
| `edit` | posted edits and the token that protects them |
| `reset`, `update`, `version` | what emptying the store and updating the program have to do, and which version is newer |
| `roundtrip`, `navigation` | laws: links, forms and redirects read back as what they were made from |

`app/` holds the sockets, files and processes around the library, and the interface that a ticket
store has to offer. `tests/` runs the library on concrete values.

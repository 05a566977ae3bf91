# reqsink

A lightweight HTTP request sink. It records the requests that are sent to it,
answers them, and shows them on an admin page at `/admin`.

The library under `src/` holds the logic and is verified with Verus:

* `ignore` - which requests are not recorded: rules with a method and a path
  pattern in which `*` stands for any run of characters.
* `target` - the path, the query and the parameters of a request target.
* `request` - requests as they come in and as they are recorded.
* `context` - what the sink has recorded and how it is set up; pruning.
* `batch` - how many requests leave a full cache at once.
* `admin` - searching the recorded requests and paging through them.
* `reply`, `serve` - the handlers and their replies.
* `archive` - the rows of the archive.
* `string_map`, `text` - maps with text as keys, and text.

What a function does stands in its `ensures`. What holds of several functions
stands in the proof functions whose names start with `law_`.

The outside functions that the library calls (of `url`, `flate2`, `chrono`, `snap`
and the standard library) stand behind functions marked `external_body` and behind
`assume_specification` items. Their contracts are claims that nothing here proves.

The program under `app/` parses the command line, talks HTTP, reads files, renders
templates and writes the archive. The tests under `tests/` run the library.

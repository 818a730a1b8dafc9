# mimicwx

A bridge between the WeChat desktop client on Linux and programs that read its messages and
answer them. The client is driven through the accessibility bus and the X display; messages
are read from its encrypted databases; everything is offered over HTTP and a live stream.

- `src/` is the library: the rules of the bridge, written and proved in Verus. It performs no
  input or output. Calls into other crates stand in `src/outside.rs` and `src/xml.rs` (and one
  of the standard library in `src/text.rs`), each
  with a note on what is claimed of it.
- `app/` is the program around it: sockets, files, databases, the display, the clock.
- `tests/` runs the library on concrete values.

Where to look first:

| module | what it decides |
| --- | --- |
| `message`, `content`, `xml`, `cell` | how a row of a database becomes a message |
| `tables`, `history`, `db`, `keys`, `contacts` | which tables are read, with which keys, from where on |
| `store`, `feed`, `http` | what a reader gets, and what a request may ask for |
| `attachment`, `send`, `command` | files, outgoing messages, typed commands |
| `wechat`, `search`, `flow`, `startup` | how the client is found and driven, step by step |
| `input`, `display` | which keys are pressed, and who may read the clipboard |

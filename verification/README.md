# jqbe

JSON Query by Example: a server answers HTTP `QUERY` requests whose body is a
JSON query document that mirrors the shape of the data it selects. Each field
of the query says whether to return the document's field (`"*"`), to constrain
it (a literal, or an operator such as `{ ">": 100 }`), or to constrain it
without returning it (`{ "?": ... }`). Arrays are collections: their members
are matched one by one, and may be ordered (`"^"`, `"v"`), paged (`"@"`) and
limited (`"#"`).

## Layout

- `src/` is the verified library (Verus):
  - `number.rs` — JSON numbers as integers or binary64 bit patterns, their
    equality and order;
  - `text.rs` — string comparison and formatting helpers;
  - `json.rs` — the JSON value type and its mathematical model;
  - `json_text.rs` — reading JSON text through `serde_json`;
  - `parser.rs` — query documents to query trees, with the parse errors;
  - `executor.rs` — running a query against a document, collections
    included (filtering, stable ordering, offset and limit);
  - `store.rs` — the document cache, loading documents from their text, and
    the mapping from URL paths to files under the data directory;
  - `server.rs` — reading the request body, and the status and JSON body of
    every reply;
  - `laws.rs` — properties that hold of every query and document.
- `app/` is the program around it: argument handling, the HTTP server, file
  reading, and turning replies into JSON text.
- `tests/` runs the library on concrete queries and documents.

# libintent

A library for building intent-based tools. An *intent* is a unit of behaviour
identified by a dot-separated path (`fs.list`, `web.search`, `llm.summary`); a
`Dispatcher` routes requests to the intent registered under a path, and every
intent answers an `IntentResult` that serialises to a JSON envelope.

The library is written in Verus: each function in `src/` carries a contract
that the verifier proves, except the six below, whose bodies call std or an
outside crate and whose contracts are taken on trust:

- `text::chars_of` — `str::chars` collected into a `Vec<char>`;
- `text::string_of` — a `String` collected from `char`s;
- `json::quote` — `serde_json::to_string` on a `str` (escaping as stated);
- `html::select` — `scraper`: parse a document, apply a CSS selector, give
  each match's `href` and text (result named `html_select`);
- `html::percent_decode` — `percent_encoding::percent_decode_str`, lossy UTF-8
  (result named `percent_decoded`);
- `html::host_of` — `reqwest::Url::parse` and `host_str` (result named
  `url_host`).

The three names are results of those calls that the contracts refer to
without spelling out the outside algorithm; they are functions of their
arguments only.

Two traits are for users to implement, `Intent` and `LlmBackend`. Their
methods' contracts speak of spec functions that an implementation defines
(`states_path`/`spec_path`, `executes`, `replies`); an implementation outside
verified code keeps the defaults, which claim nothing, and its contracts are
not checked.

- `src/types.rs`, `src/json.rs`: results, their JSON payloads and envelope.
- `src/dispatcher.rs`: registration by unique path and dispatch. Verus does
  not carry what it knows of an intent through a `Box<dyn Intent>` argument,
  so `register_intent` (over `Box<I>`) states the path for callers, and
  `Summary::register_into` and `Summary::serve` state in full what the
  dispatcher then answers for `llm.summary`.
- `src/text.rs`: whitespace trimming and the other character operations.
- `src/infras/`: the shipped intents. `llm.summary` is complete; `fs.list` and
  `web.search` decide everything here and leave reading directories and
  fetching pages to their caller.
- `app/`: the I/O around the library — `FsList`, `WebSearch` (with `tokio`
  and `reqwest`) and `OllamaBackend`.
- `tests/`: the test suite.

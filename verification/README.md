# photofinish

A little tool to replay events: it reads fixture sets ("scenarios") from a
`.photofinish.toml` file, lists them, or posts the fixture files of one of them
to an HTTP endpoint.

- `src/` is the verified library: the TOML model and the scenario reader
  (`toml_model`, `config`), the listing text (`list`), the `-H` header reader
  (`header`), the classification of post outcomes and the lines printed about
  them, the fixture order and the run state machine (`run`), the laws of a
  whole run (`run_laws`), and the web service's answers (`web`).
- `app/` is the command line: it reads files and standard input, prints, posts
  with `reqwest`, waits with `tokio`, and follows the actions the run state
  machine gives.
- `tests/` exercises the library on concrete values.

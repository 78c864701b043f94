# httpdispatcher

An HTTP event dispatcher: HTTP sources accept JSON posts, remap transforms
rewrite each event with a VRL program, and sinks print events or forward them
to HTTP endpoints, with templated URIs, headers, query parameters and bodies.

## Layout

- `src/` is the library, verified with Verus:
  - `config.rs`: the configuration model, its defaults and its validation
    (which inputs may be named, which fields must be set);
  - `pipeline.rs`: the component table, the channels and the wiring plan that
    connects transforms and sinks to their inputs;
  - `template.rs`: the `{{ path }}` placeholder renderer over events;
  - `sinks.rs`, `sources.rs`, `transforms.rs`: the decisions of each
    component (encodings, methods, requests, retries, responses, routing);
  - `format.rs`: which format a configuration file is read in;
  - `error.rs`: the runtime error type and its classes;
  - `json.rs`, `text.rs`, `component.rs`, `cli.rs`: the value model and helpers.
- `app/` is the program around it: command line, file reading and watching,
  the axum server, the reqwest client, the VRL runtime and the tokio tasks.
- `tests/` exercises the library on concrete values.

Calls into serde_json, tera and nanoid stand in the library behind small
trusted wrappers whose contracts say what those crates document.

# vedavid-connector

Answers PromQL queries from inside a cluster, over a connection that it dials
out. A query arrives, the connector forwards it to the Prometheus it is pointed
at, and returns the result.

The logic is a library that [Verus](https://github.com/verus-lang/verus)
verifies; the program around it is ordinary Rust.

## `src/`, the verified library

| Module | What it holds |
| --- | --- |
| `convert` | Prometheus answers as messages: results, label lists, series, errors and their kinds, the step of a range query |
| `prom` | The requests of the HTTP API: endpoints, parameters, path escaping, seconds |
| `service` | For each RPC, the request it sends and the reply it gives, with gRPC codes |
| `enrol` | Keys, certificate requests, identities, the roots to trust, and what the relay is presented with |
| `tunnel` | How long to wait before the relay is dialled again |
| `reconnect` | Enrol, dial, serve, repeat: what follows from each event |
| `startup` | Settings, the enrolment token, the build |
| `labels` | Label sets in the order of their names |
| `double` | IEEE 754 arithmetic, on whole numbers |
| `text` | Trimming, comparing and rendering text |
| `pb` | The messages, as plain values |

Contracts speak of models: a text is its characters, a series its labels and
samples, an error its kind and message. Public proof functions whose names begin
with `law_` state what holds across functions.

What is taken on trust stands in the module that uses it, each item with a
comment that says what is claimed: `rcgen`, `rustls` and `rustls_pemfile` in
`enrol`, the clock in `tunnel`, and `String::push` in `text`.

A sample carries its value as Prometheus wrote it. It becomes a floating-point
number only where it is put on the wire.

## `app/`, the program

`main` runs the steps that `reconnect` asks for. `dial` opens the connection,
`grpc` serves it, `upstream` sends requests to Prometheus and reads the JSON that
comes back, and `pb` encodes the messages.

With `VEDAVID_RELAY_ADDR`, `VEDAVID_RELAY_CA`, `VEDAVID_ENROLMENT_TOKEN_FILE` and
`VEDAVID_PROMETHEUS_URL` set, the connector enrols and serves over the tunnel.
Without a relay address it listens on `VEDAVID_LISTEN` instead, without
authentication. `VEDAVID_RELAY_SERVER_NAME` overrides the name checked against
the relay's certificate, and `RUST_LOG` controls logging.

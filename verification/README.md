# tentacle

A relay between Unix domain sockets and TCP or TLS targets. For each target it keeps a socket that
clients connect to while the target is reachable, forwards bytes in both directions, caps the number
of connections, reports metrics, and takes on a changed configuration without dropping connections.

The decisions are a library that is verified with Verus; a thin program around it does the I/O.

## Library (`src/`)

| Module | What it holds |
|---|---|
| `cli` | the command line and the pid file |
| `config`, `config::env`, `config::yml` | the configuration, from environment variables and a YAML targets file |
| `daemon` | the sockets of the targets, and what a reload does with the relays |
| `relay`, `relay::metadata` | generations of a relay, its listener, its reports |
| `relay::listener` | connections and how they are accounted for |
| `metrics`, `metrics::laws` | counters and the latency histogram, and what holds of them over any course of events |
| `metrics::payload` | the reported form of a snapshot and the frame that carries it |
| `tls`, `tls::cache` | TLS connectors, and which TLS files are read when |
| `text`, `path`, `names` | texts, paths and sets of names |

Each public function states in its contract what it returns or changes. Public proof functions state
what holds across functions. Calls into other crates stand behind functions whose contracts say what
is believed of them.

## Program (`app/`)

Reads the environment and the files, binds and dials sockets, performs handshakes, sends reports and
handles signals. The encoding of reports uses the message types of the `tentacle_metrics` crate.

## Tests (`tests/`)

Concrete cases for every module, run against the real outside crates.

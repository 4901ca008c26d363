# topiq_explorer

The logic of a Kafka topic explorer, verified with Verus: how a connection is
turned into a client configuration, how error texts are redacted, which page of
messages a request asks for, and how the messages on it are shown.

The library never waits for a broker. A fetch is a chain of steps: each step
says what a consumer is to do next, and takes what came of it.

| Module | What it holds |
| --- | --- |
| `text` | decimal numerals, comma joining, truncation |
| `redact` | error texts without addresses, mechanisms and stack frames |
| `security` | security protocols and SASL mechanisms |
| `headers` | repeated message headers under one key |
| `message` | messages as they come and as they are shown |
| `config` | connections and client configurations |
| `state` | open connections |
| `request` | topic names, topic lists, checked requests |
| `partitions` | partition lists with offsets |
| `fetch`, `fetch_laws` | the steps of a fetch, and what holds of all of them |
| `timeouts` | how long a client is waited for |

`app/` is the desktop application around it: it runs the consumer and offers
`connect`, `get_topics` and `get_messages` to the user interface.

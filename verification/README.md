# lpr_router

A micro-batching HTTP router for AWS Lambda. Requests to the same operation are collected for a
short time, one invocation is sent the whole batch, and its responses go back to the clients that
wait for them.

`src/` is the verified library: state machines and functions from plain values to plain values,
without I/O. `app/` is the program around it. It does the I/O, holds the queues and the permits,
hands the library what came of each, and computes the wait of a batch from the request rate, which
is floating point.

| Module | What it holds |
| --- | --- |
| `spec`, `path`, `route_table` | operations, path templates, and matching a request to an operation |
| `config`, `startup`, `location`, `template` | settings, defaults, where documents are, and `${VAR}` substitution |
| `server` | which headers are forwarded, what a request becomes, and what a failed one is answered |
| `request`, `batcher` | batch keys, when a request is accepted and when a batch is flushed |
| `event`, `json`, `body` | the event that an invocation is sent |
| `plan`, `flush`, `job` | how a batch is cut into invocations, and what follows each |
| `buffered` | one document with the responses of a whole batch |
| `stream`, `lines` | records that come one by one, and the responses that they make |
| `response`, `http_types` | header maps, status codes and responses |
| `lambda`, `outer_batch` | what an invocation came back with, and batches taken apart in a function |
| `text`, `str_map` | text and maps keyed by text |

Contracts are stated over the views of the types: texts are sequences of characters, bodies are
sequences of bytes, and header maps are maps from names to values. A sink, through which a response
goes to its client, is a type parameter, so that the contracts say who is answered and with what.

Public proof functions state what holds of several functions together, among them:

- batching keeps the order of the requests and loses none (`batcher::lemma_batches_keep_the_order`);
- requests share a batch exactly where they agree on the key (`request::lemma_same_batch_key`);
- every request of a batch is answered or handed to one invocation
  (`flush::lemma_flush_serves_everyone_once`);
- no invocation is sent more than the limit (`plan::lemma_plans_cover_the_batch`);
- every request is answered once, by the response with its id
  (`buffered::lemma_everyone_is_answered_once`, `buffered::lemma_answered_by_id`,
  `stream::lemma_stream_answers_everyone_once`);
- what each request receives of a stream does not depend on where its bytes are cut, on the kind of
  its line ends, on empty lines or on the last line feed (`stream::lemma_cuts_change_nothing`,
  `stream::lemma_framing_changes_nothing`);
- a receiver gets the chunks of a streamed invocation in order, then at most one error, and nothing
  behind it (`lambda::lemma_chunks_are_handed_on_in_order`);
- a path is found for every method or for none, and the methods that are allowed are exactly those
  that match (`spec::lemma_methods_of_a_path`).

What other crates compute stands behind declarations whose contracts are not proved; the doc
comment above each says what it claims. Rates are double precision numbers, which the library
carries as bits.

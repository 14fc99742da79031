# iec61850

Building blocks of the IEC 61850 protocol family, with contracts that are
machine-checked by Verus: a BER runtime, MMS values, the object model, the
decisions of an ACSI client, GOOSE publishing and subscribing, layer-2 frames,
and the state of a terminal client.

| Module | Purpose |
|---|---|
| `asn1` | The BER runtime: tags, lengths, elements, primitives, object identifiers |
| `mms` | Values, type specifications and their encodings |
| `model` | Functional constraints, references, the object model, control codes |
| `client` | Directory listings, datasets, reports, controls, setting groups, files, logs |
| `ethernet` | Frames, an in-memory segment, the filter of a raw socket |
| `goose` | Messages, the retransmission schedule, sequence supervision |
| `ui` | The screen of the terminal client: panels, dialogs, keys and the mouse |
| `tools` | Arguments, lines and verdicts of the command-line tools |
| `text`, `notation`, `octets`, `time` | Text, numbers, octets and dates |

The library makes the decisions and does no input or output. What it asks for
is carried out by `app/`: sockets, threads, timers, the terminal and the
asynchronous plumbing. An MMS stack is plugged in there.

Properties that relate several functions are public proof functions beside the
functions they are about, such as `asn1::decoder::element_round_trip`,
`goose::message::message_round_trip` or
`client::report::a_report_reads_as_it_was_sent`.

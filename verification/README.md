# lightscale-server

A control-plane server for overlay networks: it keeps networks, nodes and enrolment tokens, tells
each node who its peers are, answers name queries for the networks' domains, and relays packets
between nodes that cannot reach each other, over a mesh of servers where that is needed.

`src/` is the library. It decides what is done and is verified with Verus; it does no input or output.
`app/` is the server around it: options, sockets, TLS, JSON and storage.

| modules | what they decide |
| --- | --- |
| `state`, `table`, `model` | what is kept, and the data that is asked and answered |
| `networks`, `tokens`, `enroll`, `nodes`, `audit`, `topology` | what each request does and is answered |
| `auth`, `acl`, `keys`, `netmap` | who may do what, who sees whom, when keys are too old |
| `net`, `netid`, `ids`, `text` | addresses and ranges, identifiers and secrets, text |
| `dns` | what a name query is answered |
| `packet`, `stream_relay`, `udp_relay`, `mesh`, `timed` | what becomes of a packet |
| `config`, `pem` | what the options mean, which certificates and which key a file gives |
| `consistency`, `laws`, `lifecycle`, `operations`, `history` | what every state and every sequence of requests keeps |

A request handler comes in two forms. The one whose name ends in `_at` (or that takes what was
drawn as an argument) has an exact contract for every clock reading, identifier and secret. The one
beside it draws these itself and promises that the first was run with what it drew. Both mutate the
state in place; a request that succeeds adds one to the revision.

The calls into other crates stand behind small functions marked `external_body`, each with a
comment that says what is claimed of the outside function.

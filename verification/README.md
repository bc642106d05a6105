# AbixIO

An S3-compatible object store that cuts objects into shards, adds parity shards, and
spreads them over the disks of one or more nodes. Each object chooses how many failures it
tolerates.

The library under `src/` is written in Verus: what its functions return and change is stated
in contracts and proved. The program under `app/` is ordinary Rust around it: the command
line, files, HTTP, TLS, and the engines that speak S3 and Raft.

## The library

| module | what it holds |
|---|---|
| `config`, `boot` | ranges in arguments, durations, validation, start-up decisions |
| `cluster` | identity, membership and fencing, placement of shards, fixed topologies |
| `storage`, `shards`, `erasure`, `multipart` | metadata, cutting and coding of shards, uploads in parts |
| `heal` | finding damaged objects, the repair queue, the repair itself |
| `lifecycle` | rules that delete objects and versions by age |
| `policy`, `s3_access`, `s3_auth` | bucket policies and who may do what |
| `s3`, `s3_route`, `s3_service` | signatures, routing, conditions, ranges, dates, listings, settings |
| `raft` | the replicated state machine, its log, its votes and its snapshots |
| `admin`, `metrics` | the admin interface and what it reports |
| `text`, `split`, `order`, `query`, `json`, `strmap`, `digest`, `time` | what the others are built on |

Proof functions whose names begin with `law_` state what holds across functions: that a
damaged object is restored to what was written, that a log file is read back as it was
appended, that an accepted request carries the signature of its secret, that a denying
statement overrides every allowing one, and so on.

Calls into other crates stand behind small wrappers with contracts that are taken on trust:
SHA-256, MD5, HMAC, hex, Reed-Solomon coding, form decoding, JSON, the numbers in a snapshot's
header, constant-time comparison, host name, random identities and the clock.

## Tests

`tests/` runs the library on concrete values, with the real crates behind the wrappers.

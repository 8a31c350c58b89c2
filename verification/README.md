# tspa

Password-based single sign-on with distributed storage providers, in two protocols:

- **UpSPA**: a root at every provider (threshold OPRF share, encrypted keys, timestamp),
  accounts as ciphertexts at provider-specific addresses, and two-phase writes that a login
  server takes part in. Phases: Setup, Registration, Authentication, Secret Update and
  Password Update.
- **TSPA**: per-provider OPRF keys and encrypted Shamir shares. Phases: Registration and
  Authentication.

The library in `src/` is written in Verus. Contracts are stated over models (`*Model`
types, sequences and maps); theorems that relate several functions are the public proof
functions whose names begin with `law_`.

| Module | Content |
|---|---|
| `messages`, `wire` | requests, replies and their canonical encodings |
| `provider`, `provider_laws` | the UpSPA storage provider and what holds of it |
| `login_server`, `sp` | the login server and the TSPA provider |
| `interpolation`, `scalar`, `group` | Shamir sharing over the group order, scalars, group elements |
| `crypto`, `crypto_tspa`, `signature`, `random` | hashes, encryption, threshold OPRF, signatures, randomness |
| `client`, `accounts`, `password` | what an UpSPA client sends and how it reads replies |
| `tspa_adapter`, `tspa_client` | the same for TSPA |
| `agreement`, `stage` | agreement of providers, and when a round of requests ends |
| `flow`, `system`, `system_laws` | the course of a phase as a state machine |
| `round_trip` | what honest nodes give back of what was stored |
| `course` | phases on a network: what is delivered or lost, and how the client goes on |
| `journeys`, `account_journeys`, `tspa_journeys` | whole phases one after the other: what a write leaves and what the next phase reads |
| `transport`, `trace`, `benchmark` | nodes, records of calls, what a benchmark runs |
| `table`, `bytes` | a finite map, byte strings |

Group operations, scalars, hashes, ciphers, signatures, the random stream and `bincode`
come from outside crates. They are called in small wrappers whose contracts are trusted;
each says which function it calls and what is claimed of it.

`app/` holds the programs around the library, `bench_unified` and `network-node`: sockets,
clocks, threads, files, command line and floating-point columns. They are one executable
that acts as the one whose name it is started under. `tests/` exercises the library with the real outside crates.

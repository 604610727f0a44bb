# vz_backend

The logic of a sandbox backend that runs one command per lightweight virtual
machine: which policies it accepts, what machine a policy asks for, how host
and guest agent talk, what the guest may reach over the network, and how the
executor reports. It is written in Verus: the contracts in `src/` are proved.

| Area | Modules |
| --- | --- |
| Policy | `policy`, `paths`, `validate`, `vm_spec`, `exec_plan` |
| Host and guest protocol | `frame`, `message`, `client`, `agent` |
| Egress | `ip`, `ip_text`, `pattern`, `filter`, `dns`, `wire`, `wire_reply`, `guard`, `flows`, `gate`, `gate_laws`, `relay` |
| Machine lifecycle | `runner`, `session` |
| Executor | `cli`, `base64`, `json`, `executor` |
| Foundations | `bytes`, `text` |

`tests/` runs the library on concrete values. `app/` holds the programs around
it: sockets, threads, processes, JSON documents, and the macOS driver.

Times inside the egress modules are nanoseconds on a monotonic clock of the
caller's; addresses are plain integers.

Three functions from outside are trusted rather than proved, each with its
contract stated where it is declared: `String::push` and `std::str::from_utf8`
(module `text`), and serde_json's rendering of a string (module `json`).

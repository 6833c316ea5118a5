# gpuviewer

Telemetry of GPUs: what the drivers of NVIDIA, AMD, Intel, Apple and Windows tell of devices and
their processes, the story that is derived from it, and the history that is kept of it.

`src/` is the library. It takes plain values (the contents of files, what a driver's library
answered, the rows of a table) and gives plain values back, and the contract of each function says
which. Every function is verified with Verus except those that call outside it, whose contracts are
believed: three wrappers (`to_json` and `from_json`, which call `serde_json`, and `system_millis`,
which reads the clock) and the contracts of two functions of the standard library (`String::push`
and `str::to_lowercase`). `app/` is the ordinary Rust around it, which reads the files,
calls the drivers and holds the database.

| Module | What it is |
| --- | --- |
| `model`, `pci`, `backend` | the data model, PCI addresses, the registry of devices |
| `mock` | a simulated machine |
| `drm`, `drm_devices`, `fdinfo`, `files` | devices of the Linux kernel, and the processes on them |
| `amd`, `intel`, `nvidia`, `apple`, `wddm` | what each source tells, and its backend |
| `proc_meta` | CPU use and containers of processes |
| `events` | what is told of a device: throttling, processes, memory, idle gaps, hangs, spillover |
| `history` | rings of recent samples, rollups of older ones, and their rows in a database |
| `text`, `scan`, `lists`, `by_id`, `pid_table` | texts and tables that the others are made of |

Shares, temperatures and fan speeds are whole numbers of thousandths: 92.5 % is `92_500`. A metric
that a source does not tell is `None`, never zero.

Functions named `law_...` are proved statements about several functions, or about all states.
`events::story` states them of whole sequences of observations: what a told event says of all the
samples before it, and when one is told. `history::rows` does so of the rows of a recording, and
`wddm::naming` of the names of counters.

Of the crates that `app/` calls, `windows` (on Windows), `objc2` and `objc2-metal` (on macOS) are
those of one platform each: they are added to the manifest where the program is built for it.

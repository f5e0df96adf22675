# pbhealth

Portable hardware health diagnostics (PB Informática): collects CPU,
memory, disk, network and process metrics without administrator rights and
scores the machine's health from 0 to 100.

- `src/` is the verified library: the normalised metric model and its pt-BR
  display text (numbers are carried by their IEEE-754 bits and formatted
  exactly), the score engine and its laws, the metrics each collector builds
  from a reading of the machine (the busiest processes among them), configuration defaults, error messages and
  the diagnostic report.
- `app/` is the desktop program around it: the Tauri window and commands,
  reading the machine through `sysinfo`, running the collectors on threads,
  the `config.toml` file and the JSON shapes sent to the interface.
- `tests/` exercises the library, including a comparison of the number
  formatting against Rust's own float formatting (digits and rounding).

# cpe_bench

The decision logic of a bench that measures network links between two hosts, a master and an agent,
and of the web console that drives it.

- `src/` is the library. Each function states what it returns or changes, and Verus proves it.
- `tests/` runs the library on concrete values.
- `app/` is ordinary Rust around the library: the console's server, scans of a host, pings, live
  counters and the JSON forms of the library's types. What an embedding program supplies (the test
  builder, the runner, the agent's transport) is the trait `Surroundings`.

## Modules

| module | what it decides |
| --- | --- |
| `reason`, `protocol` | outcome codes and their texts; what travels between the hosts |
| `config`, `model`, `readings` | configurations, requests, and what readers make of their texts |
| `validate`, `validate_plan` | which requests are accepted, and each complaint |
| `plan`, `suite`, `suite_plan`, `sweep`, `wifi_targets`, `rate` | the tests that a request stands for, their loads and thresholds |
| `compile`, `units` | the plan that a preview shows and a run is held to |
| `import`, `console`, `baseline` | a configuration as a page shows it; connecting, progress and reports; the part of a configuration that travels with a project |
| `round_trip`, `coverage`, `drafts`, `laws` | what holds of several of these together: above all that importing an exported configuration restores what it was compiled from, and that an accepted request leaves nothing out |
| `http`, `url`, `address` | who may ask for what |
| `sessions`, `runs` | live curves on a page; kept runs |
| `nic` | interfaces, their roles and counters |
| `ping` | the command, what it printed, and how it failed |
| `text`, `number`, `json`, `pattern` | texts, floating-point numbers by their bits, JSON documents and patterns |

Floating-point numbers are held by their bit patterns (`number::Double`); arithmetic on them stands
in `app/`.

## What is believed without proof

These functions call code that Verus does not read; the doc comment of each says what is believed of
it.

| function | what it calls |
| --- | --- |
| `String::push` | itself, specified in `text` |
| `text::quoted` | `format!("{:?}")` |
| `text::to_upper`, `text::to_lower` | `str::to_uppercase`, `str::to_lowercase` |
| `url::text_from_bytes` | `String::from_utf8_lossy` |
| `nic::monitor::parse_number` | `str::parse::<u64>` |
| `nic::scan_windows::text_from_utf16` | `String::from_utf16_lossy` |
| `json::text_at`, `json::count_at` | `serde_json::from_str`, `Value::pointer`, `Value::as_str`, `Value::as_array` |
| `json::string_json` | `serde_json::to_string` |
| `pattern::captures` | `regex::Regex::new`, `Regex::captures_iter` |

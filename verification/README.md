# satelite

The rules of a desktop proxy client, verified with Verus: what it stores, how it
takes subscriptions in, which node and which core it uses, and what it shows.

## Layout

- `src/` is the library. Each function states in its contract what it returns or
  changes; the functions named `law_…` state what holds of several of them together.
  - `domain/`: nodes, rules and rule sets, DNS settings, chains, settings,
    subscriptions, and how they were stored by earlier versions.
  - `services/`: importing subscriptions and reading their quotas, probing nodes,
    replaying where DNS queries go, finding the address under which the client appears.
  - `journal`, `traffic`, `history`, `replay`, `view_cache`, `health`: open connections
    and requests, what changed since they were last shown, and how nodes fare.
  - `runtime`, `start`, `start_plan`, `launch`, `sidecar`, `state`, `watchdog`,
    `rule_apply`: a session from its start to its end.
  - `remote_rule_auto`, `refresh`, `log_frame`, `log_listener`: downloads of rule sets and the
    log of the core.
  - `smart_switch`, `smart_tick`, `smart_bootstrap`, `smart_choice`, `smart_rules`,
    `smart_rule_pass`: the automatic change of nodes.
  - `text`, `table`, `order`, `json`, `web`, `digest`, `clock`, `error`, `storage`: what
    the others are made of.
- `app/` is a program around the library: files, the network, processes, clocks, threads
  and floating-point numbers. It makes no configurations itself: `run` takes the directory
  with the programs of the cores, and a program that reads a request in JSON and writes
  the configuration that was asked for.
- `tests/` runs the library on concrete values.

Work that needs the outside world is told to the library step by step: the program makes
a request or waits, and hands the result to the function that decides what follows.

## What is taken on trust

The digests of `sha2`, the writing of `hex`, the URL and host parsers of `url`, the
percent decoding of `urlencoding`, the JSON parser of `serde_json`, and a few functions of
the standard library stand behind small functions whose contracts say what is relied on.

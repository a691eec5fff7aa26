# Umami

A multi-tier memory pressure buffering system for Linux, with its logic proved
in Verus. It absorbs memory pressure into managed swap tiers:

```
RAM -> ZRAM (compressed) -> Umami flash tier (USB/NVMe) -> disk swap (last resort)
```

The daemon samples kernel pressure signals and drives a hysteretic state
machine over `vm.swappiness` and `vm.vfs_cache_pressure`.

## Layout

`src/` is the verified library. It does no input or output: where something has
to be done outside, it says what to do next and is told what came of it.

- `natural`, `double`, `literal` — numbers of any size, doubles as their 64
  bits, and doubles in decimal notation
- `text`, `numeral` — lines, words, and whole numbers in decimal notation
- `config` — the configuration: a minimal TOML subset
- `procfs` — parsers for what the kernel tells, rates and samples
- `policy` — the control policy
- `tiers`, `zram`, `bringup`, `teardown` — actuators, and the life of the tiers
- `daemon` — the control loop and its watchdog
- `log`, `status`, `cli` — messages, the status report and the command line
- `rounding`, `measures`, `hysteresis`, `lifecycle`, `watchdog`, `defaults` —
  laws: what holds over all inputs and over runs of many steps

`app/` is the program around it: files, processes, time and the command line.
`tests/` runs the library on concrete values.

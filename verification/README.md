# forever-perfmon

A console performance monitor for Windows: CPU, memory, disk, network,
Hyper-V and Tailscale counters, redrawn every second, logged to CSV and
kept in a snapshot so that cumulative counters survive a restart.

The library under `src/` holds the monitor's logic with its contracts,
proved with Verus:

- `config`: the `forever-perfmon.toml` reader (lines, comments, basic
  strings, booleans, defaults);
- `tailscale`: running Tailscale byte totals across adapter counter resets;
- `snapshot` and `readback`: the snapshot file's text, the key-by-key
  reader, and the proof that what is written reads back;
- `format`, `time`, `csv`: console and log text;
- `network`, `types`: sums over the interface table;
- `console`: what a console key event means;
- `text`: character-level helpers.

`app/` is the Windows program around it: performance-counter and
interface-table calls, the clock, files, the console, and the
floating-point rates and byte formatting.

Settings (`forever-perfmon.toml` in the working directory):

```toml
csv_dir = "X:\\_TEMP\\performancer_log"
csv_output = true
snapshot_dir = "X:\\_TEMP\\performancer_log"
hyperv_vm_name = "ubuntu_22_04"
```

While running, `Q` exits and `C` clears the console; at start, if a
snapshot exists, `C` continues the counters and `R` resets them.

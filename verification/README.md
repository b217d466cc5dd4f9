# whatcable

What can this USB-C cable / port actually do? A Linux command-line tool that
reads sysfs and explains, in plain English, each USB-C port: the cable and
its e-marker, the charger's power profiles, the live negotiation, and what
limits charging.

The library (`src/`) is verified with Verus: every function states its
result in its contract, and the proofs cover the whole path from the text of
sysfs attribute files to the final report.

- `pdvdo` — USB Power Delivery VDO decoders (ID Header, Product VDO, Cable VDO).
- `vendor` — vendor names for USB vendor IDs.
- `sysfs` — interpreting attribute text: hex and decimal numbers, values
  with units, `[selected] other` enums.
- `snapshot` — the data model of one snapshot, with mathematical views.
- `backend` — building the snapshot from what was read from sysfs.
- `order` — stable ordering by a key, and its laws.
- `summary` — headline, subtitle and bullet points of a port, and the
  charging diagnostic.
- `text` — the human-readable report.
- `json` — the per-port report behind the JSON output.
- `clock` — calendar arithmetic for the `--watch` header.
- `watch` — when `--watch` redraws, and what it writes.

`app/` holds the program around the library: argument handling, the sysfs
reads, floating-point formatting of power figures, the JSON writer and the
watch loop.

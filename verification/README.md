# import-videos

A command-line tool that imports footage from camera storage (GoPro
HERO8 cards, TeslaCam drives) into a date-organized video library. Every
import is scan → plan → execute: a read-only scan decides what is kept,
quarantined or ignored, and nothing is copied or deleted before the plan
has been shown.

## Layout

- `src/` — the library, verified with Verus: config validation and the
  layout template language, GoPro session grouping and HiLight/GPMF
  parsing, MP4 box reading, Tesla event grouping and clip clustering,
  plan building, the transfer and deletion decisions, cleanup planning,
  and every human-readable and JSON report, whose times are rendered
  from the instant and the offset the configured zone applies. Each public function carries
  a `requires`/`ensures` contract; the laws the tool promises (such as
  "a file that was not verified at the destination is never deleted from
  its source" or "the human summary and the JSON summary count the same
  groups") are public proof functions.
- `app/` — ordinary Rust around the library: argument parsing (clap),
  the YAML config file, walking cards and reading files, GPS telemetry
  arithmetic in floating point, copying and hashing (blake3), prompts,
  progress bars and JSON output (serde).
- `tests/` — tests of the library on concrete values.

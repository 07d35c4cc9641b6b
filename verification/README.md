# lethe

A library that keeps observations in a partitioned lake and derives pages from them. What the
library decides is written in Verus: every function states in its contract what it returns or
changes, and Verus proves it.

## Modules

- `runtime`: the partition tree, its log, the routing of keys, resolution of reads to leaves, and
  the migration of key rules.
- `lake`: the lake in memory.
- `persistence`: what a durable lake decides. It covers identities of observations, the partition
  log, schema migrations, projections and their generations, Slack threads, blobs, secrets,
  operational events, and the cutover of units from one version of the interface to the next.
- `adapter`: pages for Notion, cropping of pictures, and checks that adapters share.
- `attribute_inventory`, `inventory_review`: attributes found in profiles, and their review.
- `qa`: questions, their answers and what they may cost.
- `registry`, `profile`, `domain`: types of entities, profiles of persons, and references.
- `binary64`: arithmetic on numbers in the binary64 format, by their bits.
- `json`, `text`, `text_map`, `time`, `digest`, `sorting`: what the others build on.

Functions that stand between reads and writes take what was read and return what is to be written.
Names without a body (`pub uninterp spec fn`) stand for what an outside crate computes; the
functions that make those calls are marked and say what they claim.

## Around the library

- `app`: the program. It reads and writes files, SQLite databases and the Notion API, and asks the
  library what to do.
- `tests`: the library on concrete values.

Coordinates of pictures and amounts of money are numbers in the binary64 format. The library takes
them by their bits and computes with these.

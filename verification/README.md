# scratch_dir

Per-launch scratch directories for agent processes, with proofs.

Some agent binaries unpack into the system temp directory on every launch and
clean up only on a graceful exit. A host that ends them by force leaks what they
unpacked, up to a gigabyte a launch. This library gives each launch a directory
of its own, points the child's `TMP`, `TEMP` and `TMPDIR` at it, and decides when
and by whom it is deleted.

`src/` holds the decisions, written in Verus and verified:

| module      | what it decides |
|-------------|-----------------|
| `settings`  | whether isolation is on, and where the scratch root is |
| `names`     | directory names `<pid>-<8 hex>`, and which names are such |
| `registry`  | the names that this process has claimed |
| `launch`    | how a launch comes by its directory, and hands it back |
| `removal`   | the retry ladder, and the deletion that each attempt makes |
| `readonly`  | the pass that makes read-only files deletable |
| `probe`     | what the operating system's answer says of a pid |
| `sweep`     | which directories a sweep may delete, and when one runs |
| `agent_env` | the child's environment |
| `ordering`  | why no sweep deletes the directory of a live launch |
| `paths`, `text` | paths and texts, as far as the rest needs them |

`ordering` models one process and takes two things for granted. Nobody else
removes the directories of this process. And no directory is made under a name
that one of its sweeps is about to delete: this is shown to follow where names are
fresh, and also where the sweep runs once at a time.

`app/` runs these decisions against the disk, the clock and the process table.

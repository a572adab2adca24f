# lvq — verified provisioning engine for LVM2

The library plans and checks the provisioning of LVM2 storage: it reads the
`lvq provision` command line, turns it into an ordered list of system calls,
judges that plan against what the machine reports, and compiles it into the
commands to run. The library's functions are verified with Verus against
specifications over mathematical models (`Seq`, `nat`, views of each
type); two small functions are trusted instead, each calling one std
function (`String::push`, `{:?}` on a `Path`), and are marked
`external_body`.

Layout:

- `src/domain.rs` — sizes, filesystems, volume requests, commands, calls,
  drafts and execution lists, with their views.
- `src/text.rs` — character-level text operations (splitting, joining,
  decimal rendering).
- `src/parser.rs` — the command line: sizes, filesystems, volume specs, the
  `provision` worker and the router; the round-trip and toggle laws.
- `src/planner.rs` — the plan of calls; its ordering and counting laws.
- `src/convergence.rs` — pass 1 (Done / Clean / Dirty) and pass 2 (screening
  of devices, extent arithmetic), fed with probe reports; its laws.
- `src/execution.rs` — compilation into commands, confirmation,
  authorization and the journal's text; the laws on execution lists.
- `src/pipeline.rs` — facts across the whole pipeline.
- `src/probing.rs` — what the machine's files and tools print, read as
  facts: fstab and mount references, `lsblk` sizes and device types, the
  root check.
- `app/main.rs` — the program: probing the machine, prompting, running the
  commands and journaling them to `/var/log/lvq`.

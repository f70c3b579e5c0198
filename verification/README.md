# Storage Doctor

Storage Doctor finds what fills a Windows disk and what can safely be
cleared: caches, temporary files, logs, old installers, duplicate files,
application leftovers.

The decisions are made by a library verified with Verus (`src/`): how a
path is classified, how a folder is measured and what of it counts as
recoverable, what a scan records, which cleanup targets are recommended,
how duplicates are grouped and ranked, how uninstall command lines are
read, and the PowerShell scripts that delete, force-delete and
force-uninstall. Every public function states what it returns in its
contract, except `shell::is_deletable_target`, whose answer is the disk's
(the verified `shell::deletable_given` states how the disk's two answers
combine); where the disk or the clock decides, a function one call down
takes their answers as arguments and states its result exactly. The
laws that tie functions together (a breakdown row equals what the
cleanup dialog offers, a scanned figure equals a live measurement, a
folder's listing totals equal its measurement) are proved as proof
functions.

Layout:

- `src/` — the verified library. `text` and `winpath` hold the string and
  Windows-path helpers; `classify`, `cleaner`, `scanner`, `commands`,
  `recommendations`, `apps`, `dupes`, `uninstall`, `thumbs`, `shell` and
  `order` hold the logic.
- `tests/` — tests of the library on concrete values.
- `app/` — a command-line front end: it reads the disk, the registry and
  the database, hands plain values to the library and prints JSON.

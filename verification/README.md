# paagan

`paagan` runs PostgreSQL instances in Docker on a development machine, with
WAL archiving, base backups, point-in-time forks, compaction of old backups
and archived WAL, and compaction schedules registered with the OS scheduler.

## Layout

- `src/` is the library, verified with Verus. It holds the logic of the
  tool: LSN parsing and WAL segment naming (`wal`, `segments`), the archive
  clean-up rule and the choice of the segment that anchors the archive
  (`archive`), base backup retention and recovery-target selection
  (`backups`), reading a backup manifest (`manifest`), recovery targets and
  retention spans (`time`), instance records and paths (`config`), container
  names, mounts, commands and environments (`docker`), and the decisions and
  printed output of each command (`commands`). `text`, `paths` and `sorting`
  are the string, path and ordering helpers these rest on.
- `app/` is the command-line program around the library: argument parsing,
  the configuration file, the file system, docker (through bollard and the
  `docker` CLI) and the OS scheduler.
- `tests/` exercises the library on concrete values.

The main properties proved about the library include: retention partitions
the backups and always keeps the backups inside the window, the pinned one
and (unless strict) the newest one before it; the recovery target picks the
newest backup at or before the target; segment names (ignoring the timeline)
compare as segment numbers; and compaction never removes an archived segment
holding WAL at or after the start of a kept backup.

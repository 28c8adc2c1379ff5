# xchannel

Append-only channels over rolling, region-structured segment files: one writer, any
number of readers, in any number of processes.

* `src/` is the core, verified with Verus. It does no input or output: every step is
  handed the bytes of the regions that it works on, and says what is to be done outside.
  * `channel`, `layout`, `bytes`, `text`, `error`: the wire format, sizes, numbers, errors
  * `segment`, `tally`, `writer`: laying out, taking up, recovering and appending to segments
  * `reader`, `batch`, `message`: reading, one message at a time and many
  * `builder`, `names`, `region`, `wait`, `migrate`: settings, file names, windows, pacing
  * `log`, `writer_laws`, `reader_laws`, `batch_laws`: what the bytes of a channel say, and
    what holds of it whatever its ends do
* `app/` puts the core on the file system, with memory-mapped regions.
* `tests/` runs the core on regions in memory.

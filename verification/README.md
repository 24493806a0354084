# jukebox

The core of Kyylan Jukebox, a LAN party jukebox, as a library whose rules carry
machine-checked contracts.

- `src/` is the verified library: the queue engine's decisions (what plays next, who may
  add what and when, downvotes, bans, the stats), the library's rules (which files are
  audio, the walk order, tag merging, the browse and search SQL, the scanner's state, the
  CSV export), the database's migrations, the data directory, JavaScript's string and path
  behaviours the data depends on, and the audio engine's decisions (refused streams,
  gapless trimming, device choice, a song's progress). Every function states what it
  returns in `requires` / `ensures`; the laws that span functions are public proof
  functions.
- `app/` is the rest: SQLite, the file system, lofty, symphonia, libopus, rubato and cpal,
  and the floating-point parts, each calling into the library for the decision.
- `tests/` holds the tests, run against the compiled library.

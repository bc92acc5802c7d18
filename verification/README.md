# zapfast

Where ZapFast keeps its files, and how attachments move between folders, as a
verified library.

The library decides and the caller acts. Whatever needs the file system or the
message archive is a job: a value that names its next request and goes on with
the reply, until it is done or has failed. Every job has an exact contract, so
that what it asks for, and what it comes to, is known for every reply.

- `src/path.rs`, `src/file_path.rs`: paths as text, with `/` between the names.
- `src/paths.rs`, `src/layout_laws.rs`, `src/platform.rs`: the directories of an
  installation, and what the platform says of them.
- `src/ensure.rs`: making directories, privately.
- `src/adopt.rs`, `src/adopt_laws.rs`, `src/takeover_laws.rs`, `src/disk.rs`:
  taking over the directories of earlier names.
- `src/resolve.rs`, `src/locate.rs`, `src/validate.rs`, `src/canonical_laws.rs`:
  judging a folder before it exists.
- `src/publish.rs`, `src/copying.rs`, `src/save.rs`: new files that take no other
  file's place.
- `src/relocations.rs`, `src/media_storage.rs`, `src/worker.rs`,
  `src/change_laws.rs`: changing the attachment folder.
- `src/store.rs`, `src/store_laws.rs`, `src/again_laws.rs`: what all of that does to
  a disk, and that doing it again changes nothing.
- `src/io.rs`: requests and replies.
- `app/`: carries the requests out with the file system, the archive and the task
  pool.

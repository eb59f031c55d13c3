# rust-fuse

A small file system in the style of vsfs, for FUSE, with its logic verified by Verus.

- `src/` is the library: bitmaps and first-fit allocation, extents, inodes, metadata,
  directories, and the requests that the file system answers. The store itself is out of its
  sight: a request says which slices to read or to write, in order.
- `app/` mounts the file system on two files, `meta.fs` and `store.fs`: it reads and writes the
  slices, and saves metadata and directories as JSON.
- `tests/` run the library against a store in memory.

Metadata is valid where every request can be carried out on it, and sound where, besides, every
block belongs to one file at most (`src/consistency.rs`). Every request keeps it so. What follows
for whoever uses the file system stands in `src/laws.rs`: what was written is read back, files
and directories leave each other alone, what was created is found under its name, and what was
saved comes back.

# era_engine

The decisions of an archive engine, written in Verus: what is read and written
next, where it lies, what is accepted, and what is reported. The contracts of
the library are proved by Verus. What the clock or the random number generator
of the operating system gives is left open; what is done with it is not.

## Layout

- `src/` - the verified library.
  - Damage and repair: `erasure_scan`, `repair`, `repair_scan`, `repair_matrix`,
    `repaired`, `repaired_matrix`.
  - Walking blocks: `block_iter`, `block_iter_erasure`, `block_iter_session`,
    `shard_decode`, `lost_volumes`.
  - Volumes: `volumes`, `volume_stage`, `types`, `locations`.
  - Writing: `writer`, `writer_core`, `write_pipeline`, `packing_stage`,
    `small_file_packer`, `erasure_stage`, `encryption_context`, `index_stage`,
    `chunk_index`, `async_pipeline`, `catalog`, `hashing`, `sequence`.
  - Reading: `reader`, `chunk_processor`, `round_trip`, `verification`,
    `lsm_manifest`, `paths`.
  - Checkpoints: `checkpoint`, `recovery`.
  - Access: `auth`, `secrets`, `repack`.
  - Compact archives: `source_block_snapshot`, `compact_compactor`,
    `compact_writer`, `compact_reader`.
  - Shared: `hash_table`, `ordering`, `text`, `metrics_collector`.
- `tests/` - the library run on concrete values.
- `app/` - the I/O around it: files, tasks, serialisation, metrics. Volumes,
  ciphers and Reed-Solomon coding come in through the traits of `app/ports.rs`.

## How the parts meet

Where work alternates between reading and deciding, the library holds the state
and says what is needed (`request`, `next_header`, `front_site`, ...). The
application does it and hands the reply back (`on_front`, `on_data`, ...). The
contracts say for every reply what the state becomes.

Public proof functions whose names begin with `law_` state what holds across
functions, for example that reading an archive gives the same blocks whichever
volumes are lost, up to as many as a stripe has parity shards (`lost_volumes`),
or that what is extracted is what was added (`round_trip`): of a file with chunks
of its own, and of a small file that shares a chunk with others.

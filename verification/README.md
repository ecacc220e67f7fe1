# fuse_planner

Verified pieces of a query planner and of a columnar table store:

- `src/types.rs`: column types (`TableDataType`) and table schemas, with their
  mathematical views.
- `src/metadata.rs`: the catalogue of tables and columns a query uses. Adding a
  table lists its fields as columns depth first through struct types, with
  Parquet leaf indices; the laws of that listing are proved there.
- `src/update.rs`: which columns an UPDATE reads, and where each output column
  comes from.
- `src/fuse_snapshot.rs`: the rows of the snapshot-history table function.
- `src/versioned_reader.rs`: the error a metadata loader reports for a failed read.
- `app/lib.rs`: the shared metadata handle and the asynchronous loading of
  metadata files (reading and JSON decoding).

# columnar_sstable

Verified codecs for two file formats of a search index. Everything under `src/` is
checked by Verus; `app/` holds the edges that do input and output.

* `src/common/`: bytes and slices, little-endian and variable-length integers, UTF-8,
  errors.
* `src/sstable/`: blocks of delta-encoded keys with their values. `delta` writes and
  reads them, `value` holds the value sections, `compression` the calls into zstd;
  `roundtrip` and `writing` hold the laws that tie writing to reading.
* `src/columnar/`: the columnar file. `layout` splits a file at its footer,
  `dictionary` lists and scans the columns, `column_handle` and `columns` turn entries
  into handles, `reader` puts these together, and `stats` holds column statistics.

What is believed without proof stands in `sstable/compression.rs` (zstd) and
`columnar/text.rs` (two functions of the standard library), each with what is claimed
of it.

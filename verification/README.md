# ch_dump

Dumps the light curves of astronomical sources, read from ClickHouse, into
binary files: the source ids, the light curves interpolated in flux, and
light-curve features computed on magnitudes and on fluxes, one record per
source in every file, with a file of column names and a JSON description of
the feature extractors.

- `src/` is the verified library:
  - `cursor`: which row of which result block the query reader hands out next;
  - `dispatch`: per-file buffering of records and when a buffer is flushed,
    with the proof that every file receives exactly its records, in order;
  - `columns`: the names of the feature columns;
  - `encoding`: records in machine byte order, and the layout of a feature
    record, value for value with the feature columns;
  - `dumps`, `dumper`: the dumps a run writes and the name and description
    files;
  - `passband`: the survey's passbands.
- `app/` connects the library to ClickHouse, to the numeric code (feature
  extraction, interpolation), to worker threads and to the file system.
- `tests/` exercises the library on concrete values.

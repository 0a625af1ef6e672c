# hnswio

Dump and reload of a hierarchical navigable small world graph, verified with Verus.

A dump is two byte streams: the graph stream holds a description of the graph
(parameters, distance and coordinate type names) followed by its layers of points
and their neighbours; the data stream holds the coordinates of each point.

- `src/wire.rs`: little-endian fields, reading at a position, the load errors.
- `src/hnsw.rs`: the graph as plain values (points, layers, entry point, parameters).
- `src/format.rs`: the format as specification: what a dump writes, what a reload reads.
- `src/hnswio.rs`: the description, its dump and its reload; the dump of a graph.
- `src/load.rs`: the reload of a graph.
- `src/laws.rs`: reading back a dump gives back the graph; a description can be read
  from a stream field by field.
- `app/lib.rs`: readers and writers around the library.

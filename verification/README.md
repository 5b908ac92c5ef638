# Coffee shop finder

Finds the three coffee shops closest to a given location, from a CSV file of
shops (`name,y_coordinate,x_coordinate`, no header) that is downloaded once.

```
af_coding_challenge <y_coordinate> <x_coordinate> <csv_url>
```

Layout:

- `src/` is the verified library (Verus):
  - `metric.rs`: the Minkowski parameter `p` and the metric it selects;
  - `records.rs`: shop rows read out of CSV data (the `csv` crate parses);
  - `nearest.rs`: the stable ranking of shops by distance key, and its laws;
  - `download.rs`: the decisions of the download, as a state machine, and its laws;
  - `invocation.rs`: the command-line arguments.
- `app/` is the program: argument handling, HTTP, files, and the
  floating-point work (reading coordinates, computing distances, printing).
- `tests/` exercises the library.

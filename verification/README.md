# hdfs_native

Client-side logic of an HDFS client, verified with Verus.

- `src/` is the library: paths, mount tables, the requests of each operation, the meaning of their
  replies, and the walk of directory trees. It performs no input or output.
- `app/` is the asynchronous client around it. It performs the calls that the library hands out.
- `tests/` runs the library on concrete inputs.

The main contracts:

- `path`: components, prefixes, stripping and joining of slash-separated paths.
- `mount`: the most specific mount serves a path; what lies below the mount point is kept.
- `viewfs`, `client`: which configured links make a mount table, which do not and why; what each
  operation asks of which name service; what each reply leads to.
- `listing`, `traversal`: a walk hands out every entry of a tree once and in order.

Three functions are trusted: `address::parse_url` (`url::Url::parse`), `text::decode`
(`std::str::from_utf8`) and `shared::share` (`Arc::clone`).

# geogroup

Sorting photos into a hierarchy of groups by where and when they were taken, verified with
Verus.

Items are ordered by time and cut into a binary tree at the largest distances between
neighbouring items (`deep_sorter`); every group knows how far apart its two halves are and how
strongly it holds together compared to its parent. The final hierarchy (`geogroup`) dissolves
the groups that are too weak for the chosen depth, or whose items are closer than the minimum
distance, into their parents. Groups are named from the names of their items
(`deep_sorter::naming`): a group is named by what its children's names have in common, and
each child keeps only the rest.

Layout:

- `src/` — the verified library: `algo` (the first version of the algorithm), `bintree`,
  `deep_sorter` (with `onetime` and `naming`), `geogroup`, `hierarchy` (`concrete` and
  `lazy`), `backend` (selections, item sources, naming status of the main hierarchy, the automatic
  names and node data of sorted groups, when progress is reported),
  `apply` (names under which a hierarchy is written to disk), `gui` (plain state of the user
  interface), `common`, `type_level_logic`, `maybe_borrowed`, `strength`.
- `app/` — a command line front end: reading directories, sorting a list of photos and
  copying the groups to disk, copying a hierarchy to disk,
  progress reporting, and what works with floating point (geodesic distances, strength from
  the ratio of separations).
- `tests/` — tests of the library.

# oxidedisk

The verified core of OxideDisk Analyzer, a disk-usage analyzer for Windows:
the file model, filtering and sorting of the scanned file list, aggregation of
files into a folder-size tree, the size → prefix-digest → full-digest funnel of
duplicate detection, the safety checks of temp-folder cleanup, and the state
machine of the application. Verus verifies every function in `src/`; the
public ones carry contracts that say what they return. The calls into rayon,
blake3, chrono and std that the logic makes go through small trusted wrappers
whose contracts say what those crates document.

`app/` is the program around it: the egui window, the directory walk (jwalk),
reading files for hashing, the environment, the Recycle Bin, the disk list and
Windows elevation, and the floating-point treemap layout and drawing.

| Module | Contents |
| --- | --- |
| `models` | `FileMetadata`, `DiskInfo`, `Category`, `SortKey`, `FilterState`, messages, `DuplicateGroup`, `Settings` |
| `analyzer` | filtering (`apply`) and sorting (`sort`) of index lists |
| `treemap`, `zoom` | `build` of the folder tree, `Node::direct_size`, tree-map navigation |
| `duplicates`, `digest` | the three duplicate stages, hex digests, prefix-limited blake3 |
| `cleanup` | temp-folder candidates, protected roots, `is_protected`, cleanup plans |
| `scan` | per-file bookkeeping and progress cadence of a scan |
| `app_state` | the application's state transitions |
| `winpath`, `text` | Windows path components, string helpers |
| `sizes`, `timefmt` | `human_bytes`, `format_time` |
| `disk`, `elevation`, `clock`, `order` | disk choice, relaunch decisions, time, ranked sorting |

# canopy core, verified

The deciding parts of the core of Canopy, a terminal UI library, written in
Verus: the functions in `src/` carry contracts and are proved against them,
except a few small trusted wrappers around calls into `std`,
`unicode-width`, `unicode-segmentation`, `convert_case` and `ruau`, whose
contracts are taken from those crates' documentation and source.

Interface elements form a tree of named nodes. The library holds:

- `state`, `path`: node names, paths, path filters and their match
  precedence;
- `event`, `inputmap`: keys and mouse inputs, and the binding registry
  (application scopes and modes, framework groups, exclusive frames,
  resolution and diagnostics, snapshots and restores);
- `style`: colours, attribute sets, style effects, the style map with its
  rule builder, the layered style manager that resolves a style path, and
  the theme rules that every built-in palette shares;
- `termbuf`: the terminal cell buffer, its canonical wide-grapheme layout,
  the diff that turns one buffer into render operations, and a model of the
  terminal those operations drive;
- `render`, `geom`: coordinates, the clipped and translated renderer that
  draws a canvas region into a buffer, and the render backend interface;
- `poll`: poll deadlines, one per node, due in a determined order;
- `script`: the script-facing values (diagnostics, module roots, source
  preparation, value paths);
- `checker`: type-checking script source against a prepared script surface,
  with `ruau`'s checker;
- `decls`: the Luau type declarations of the records the script API
  exchanges, as a table of plain values, and their registration with
  `ruau`'s module builder;
- `host`: the decisions of the script host: the publishing plan of a
  finalize, the checks before an invocation segment runs, and the steps of a
  wait for a condition.

Laws that relate several operations are public proof functions whose names
start with `law_`; for example `termbuf::replay::law_diff_replays_to_current`
shows that replaying a diff on a terminal that shows the previous buffer
leaves it showing the current one (for every diff but the shift of a
frame's inside, which leaves the frame's side cells of the uncovered rows
blank), and the `termbuf::canon` laws show that
every buffer write keeps the canonical layout.

`app/` holds what touches the operating system: the clock behind poll
deadlines, and finding script roots and startup modules on disk. `tests/`
exercise the library on concrete values.

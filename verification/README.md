# sgash

The command logic of a small kernel shell, verified with Verus.

- `src/action.rs`: the console actions the library returns for the glue to perform.
- `src/rstr.rs`: a bounded byte string (`rstr`) read the way a kernel reads a
  NUL-terminated buffer of four-byte character cells; argument lookup,
  splitting, comparison.
- `src/fs.rs`: a file system whose nodes link to siblings and first children
  by index.
- `src/console.rs`: cursor moves and the rotating palette used for drawing text.
- `src/shell.rs`: the shell state and its key-by-key transitions (`init`,
  `parsekey`, `parse`), which return the console actions to perform.
- `app/lib.rs`: performs those actions on a platform's serial line and framebuffer.

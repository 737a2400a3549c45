# mykrut

The logic of a dual-pane file manager for Linux, verified with Verus, and a
front end for the terminal around it.

- `src/` is the library. Every function states what it returns or changes over a
  mathematical model: paths are byte sequences with components, texts are
  sequences of characters, the window is a value with panes and tabs. What the
  file system, the clock or another program decides comes in as an argument, or
  as an event of a state machine such as `copy_run::CopyRun`.
- `tests/` runs the library on concrete values.
- `app/` performs what the library decides: it reads directories, copies bytes,
  starts programs and keeps the settings.

Where the library calls another crate, a small function holds the call and says
what is relied on: MIME types (`mime_guess`, `infer`), natural ordering
(`lexical-sort`), MD5 (`md-5`), decoding and shrinking pictures (`image`) and the
user's base directories (`dirs`).

The laws of the library are its public proof functions, for example
`copy_laws::runs_stay_inside_their_destination`,
`copy_disk::keeping_both_keeps_what_was_there`,
`state::panes_keep_their_state`, `bulk_rename::escaped_text_renders_as_itself`
and `mimeapps::set_default_is_read_back`.

# dx

Folder sizes on macOS without walking the tree: Finder's cached size asked through Apple
Events, the size recorded in the parent folder's `.DS_Store`, or, failing those, a walk over
the files.

- `src/` is the verified library: the `.DS_Store` reader (`byte_buffer`, `ds_parser`), the
  cache of what the files hold (`keyed_list`, `ds_result`), the fallback over strategies and
  the reading of Finder's answers (`config`, `fffs`), and the text of the listing
  (`iterator`, `text`). Each function states its behaviour in `requires`/`ensures`, and the
  `law_*` proof functions state what holds across calls.
- `app/` is the `dx` program around it: the command line, the calls into Finder, the file
  system, and the printing.
- `tests/` runs the library on concrete values.

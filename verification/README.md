# lstui

A terminal reader for [Lobsters](https://lobste.rs): story feeds and nested comment
threads, read from the site's JSON endpoints.

## Layout

- `src/` is the library, verified with Verus. It holds the logic: turning API
  records into stories and comment trees, the application state machine (`model`),
  which answers key presses, fetch results and timer ticks with a new state and a
  list of effects to carry out, list and comment navigation, the rate limiter,
  comment wrapping and the text shown on screen. Contracts are stated over spec
  functions and views; the laws that span several calls stand as public proof
  functions (`model_laws`, `tree_laws`, `nav_laws`, and in `rate_limiter`, `wrap`
  and `input`).
- `app/` is the program around it: command-line parsing, HTTP, the on-disk cache,
  the log file, the terminal and the drawing of frames. It carries out the effects
  that the model asks for and hands the answers back as events.
- `tests/` exercises the library on concrete values.

## Keys

Stories: `j`/`k` or arrows move, `gg`/`G` top and bottom, `Ctrl+d`/`Ctrl+u` page,
`Enter`/`Space`/`l`/`→` open comments, `o` source link, `O` comments page, `r`
refresh, `?` help, `q`/`Esc` quit.

Comments: `h`/`←` collapse, `l`/`→` expand, `Enter`/`c` toggle, `o` comments page,
`O` source link, `q`/`Esc` back; moving, paging and `r` as above.

# àṣẹ (ase-shell)

A small interactive Unix shell whose rules are written in Verus and proved.

- `src/` is the library: splitting a line at `;`, `&&` and `||` outside
  quotes and deciding which parts run; reading a command's words into a
  name, arguments and redirections; `$VAR`, `~` and glob expansion; the
  builtins (`cd`, `pwd`, `echo`, `exit`, `type`, `history`) and what each
  prints or does; planning pipelines; the `ls` listing and its column
  layout; the prompt; tab completion and highlighting. Each public function
  states its result in its contract, over models built from `Seq`, `Map`
  and views of the library's types. The calls into `shlex`, `glob`,
  `pathsearch` and `rustyline` go through the trusted items of
  `src/bindings.rs`, whose contracts say what those crates do.
- `app/` is the program around it: the read–eval loop, the line editor,
  and the effects that the library hands back (writing files, spawning
  programs, changing directory, reading directories).
- `tests/` runs the library on concrete inputs.

# rust_shell

A POSIX-style shell whose decisions are verified with Verus: how a line is read, what it asks
for, what the builtins print and change, how jobs are numbered and reaped, what the history
holds and what is offered for completion.

## Layout

- `src/` is the library. It touches no terminal, file or process: its functions take what was
  read and hand back what is to be done, and each of them is proved to do what its contract says.
  - `lexer`, `quoting`: words, quotes, escapes and parameter expansion, and their laws
  - `redirect`, `pipeline`: redirections and pipelines among the words of a line
  - `shell`, `steps`, `laws`: the state of the shell, the actions and effects of a line, the steps
    of running one command, and the laws that join them
  - `builtins`, `messages`: what the builtins and the failures print
  - `jobs`, `history`, `lines`: background jobs, the history and its files
  - `request`, `completion`, `merge`, `answer`: what is completed, the candidates, their order and
    the answer
  - `text`, `chars`, `table`, `numbers`: strings, classes of characters, tables and decimals
- `app/` is the shell around it: the line editor, the files and the processes.
- `tests/` runs the library on examples.

## What is taken on trust

A few functions of the standard library have contracts that are stated and not proved:
`String::push` and `==` on string slices in `text`, `char::is_whitespace`, `char::is_alphabetic`
and `char::is_numeric` in `chars`, and `String::from_utf8_lossy` in `completion`.

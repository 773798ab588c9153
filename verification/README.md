# lzsync

A terminal program that sends files to SSH hosts: drop or paste a path, rsync
carries the file over, and its absolute remote path lands on the clipboard. It
can also watch folders and send every new file that settles there.

The library under `src/` holds the program's rules, written in Verus and proved:

- `path_input`, `paths`, `glob`, `text`: pasted text, paths and patterns
- `environment`: the home directory and the variables that paths may name
- `ssh_config`, `target`, `config`: what the user has set up
- `transfer`, `clipboard`, `history`, `update`: sending a file, what is copied and
  recorded, newer versions
- `lock`, `watch`, `tunnel`: lock files, polled folders, forwarded ports, as state
  machines that say what to do next
- `app`: the state behind the screen, what keys, clicks and events do to it, the
  form for watched folders (`app/forms.rs`), and the laws that hold of it all
  (`app/laws.rs`)
- `ui`: what a frame shows and where it can be clicked
- `outside`: what is taken from other crates and believed of them

`app/` is the program around it: arguments, the terminal, files, processes and the
network. The library asks for such work through `Effect`s and hears of the outcome
through `AppEvent`s.

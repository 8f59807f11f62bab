# info

Four small tools for a Linux desktop, as one verified library and a thin program around it:

- `disk`: a table of the disks that are worth showing, with usage bars;
- `disk-more [dir]`: a browser of directories by the space they take;
- `net`: a picture of the network, with interfaces, ports, routes and connections;
- `setting`: a screen with sliders for the brightness of the display and for the times after which
  the screen goes dark and the machine to sleep.

## Layout

- `src/` is the library. Its functions carry contracts, and Verus proves each of them but those
  that are taken on trust, which are listed below. What compiles from a `derive` has no contract.
  - `text`, `number`, `order`, `path`: text, numbers, stable ordering and Unix paths;
  - `style`, `layout`, `width`, `input`: what is shown, where, how wide it is, and keys;
  - `disk`, `ui`: which disks are shown, and their table;
  - `scan`, `browse`: listings of directories, and the browser's state;
  - `net`: addresses, sockets, ports with their processes, and the layout of the picture;
  - `setting`: `ddcutil` reports, the configuration of the idle daemon, the state of the screen,
    what the workers do, and the restart of the daemon.
- `app/` is the program: files, processes, threads, the terminal, and floating point.
- `tests/` runs the library on concrete values.

What holds of the library as a whole stands in public proof functions whose names start with
`law_`.

## What is taken on trust

Five small functions make a call that Verus does not see into; their contracts are believed, and
their doc comments say what is claimed of the call:

- `width::width_of` and `width::char_width`: the widths that `unicode-width` gives to texts and to
  characters;
- `ui::byte_size`: the text that `bytesize` gives to a number of bytes;
- `disk::to_lower`: `str::to_lowercase`;
- `layout::split`: how `ratatui` divides an area.

Beside these, the contract of `String::push` is believed.

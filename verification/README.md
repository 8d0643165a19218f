# Gurukul

A singing coach: it listens, shows the pitch that is sung against the scale that
is meant, and records its runs so that they can be played back.

- `src/` is the library, verified with Verus. It decides everything that can be
  decided without a float, a file or a screen: the screens and what leads from
  one to the next (`shell`, `menu`, `ui`), what the coach reported (`coach`,
  `features`, `port`), the music (`music`, `note_dial`, `semantic_graph`), what
  the time graph draws (`time_graph`), the flight recorder and its replay
  (`trace`), and the command line (`cli`, `tui`). Floats travel through it as
  their bits (`ieee`).
- `tests/` runs it.
- `app/` is the program around it: windows, terminals, files, devices and the
  arithmetic on floats.

The laws that the library keeps are the public proof functions whose names begin
with `law_`.

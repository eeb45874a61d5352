# nanovna_saver

Records sweeps from NanoVNA vector network analysers over their USB serial
shell, from the command line or from a window.

`src/` is a Verus-verified library; `app/` is the program around it.

- `protocol` — the shell exchange that fetches one trace: the `sweep`,
  `data` and `bandwidth` commands, the prompt detection and the reply
  collection, as a state machine that the program drives with the outcome of
  each read.
- `sweep_text` — the lines of a reply read as pairs of value fields, with
  Unicode trimming and field splitting.
- `ports` — choosing the NanoVNA ports in a listing of the serial ports.
- `run_plan` — one worker per chosen analyser, and the run's result from the
  workers' outcomes.
- `schedule` — the order in which a worker fetches its traces.
- `settings` — the settings form: defaults, validation messages, the run a
  form or a command line asks for, and the save path.
- `terminal` — the window's log, kept under a size limit on whole lines.
- `plot` — which recorded rows the plots draw.
- `digits` — decimal formatting of the numbers in commands.

`app/` lists and opens the ports, runs the workers on threads, parses the value fields
as floating-point numbers, builds the result table, writes the CSV file, and
draws the window (`gui` as the first argument opens it).

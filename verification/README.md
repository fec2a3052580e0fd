# oregano

A rhythm game that plays a Standard MIDI File against the clock and reads
key presses from a USB keyboard.

- `src/` is the library, verified with Verus: the MIDI file reader (with a
  specification of exactly which files it reads and what it makes of them),
  note messages and their order by play time, note names, command-line
  numbers, playback and the held-keys mask, and the choice of USB device and
  endpoint.
- `app/` is the program around it: reading the file from disk, the console
  playback, the window (eframe/egui) and the USB reads (rusb).
- `tests/` runs the library on concrete files and values.

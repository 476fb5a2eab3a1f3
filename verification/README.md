# piano_flow

A MIDI piano visualiser: a MIDI input thread keeps the list of held notes
and writes it to `info.txt`; a Bevy window reads that file every frame,
drops a falling note for each newly pressed key, grows the notes still held,
caps the released ones, and lights the keys of an on-screen keyboard.

`src/` is the verified library (Verus):

- `notes` - toggling a struck note, the `info.txt` text (written and read
  back), and the console board;
- `midi_flow` - what the MIDI handler does with each message, debug mode,
  and the choice of input port;
- `placement` - the keyboard layout table (key positions in half key widths,
  black keys) and white-key counts;
- `keyboard` - the keys to draw and how each key follows its note;
- `spawner` - the per-frame plan: pressed, held and released notes;
- `config` - the `key:value` settings file, written and read back;
- `ui_config` - colour syncing, save paths, and the drawn keyboard span;
- `decimal`, `text` - decimal integers and splitting text, over bytes.

`app/` is the program around it: the Bevy systems, the egui settings window,
MIDI I/O through midir, and file access.

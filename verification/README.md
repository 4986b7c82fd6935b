# forma

The front end of the Forma synthesizer, split into a verified library and
the application code around it.

- `src/` — the library, verified with Verus. Each module holds the
  decisions of one part of the user interface as functions on plain values,
  with contracts stated over spec functions and the views of vstd types
  (`Vec`, `String`, `HashMap`), and the laws that
  relate them as public proof functions:
  - `keyboard` — computer-keyboard playing (piano and chord-keyboard modes,
    freeze, octave, velocity, bend, mod wheel) as per-frame transitions;
  - `drum_machine` — the drum step grid, euclidean rhythms, lane
    randomizer, mute/solo, clipboard and factory kit patterns;
  - `patch_browser` — filtering, favourites, recent patches, category list;
  - `seq_controls`, `pattern_library`, `arp`, `mixer`, `mod_matrix` — the
    sequencer, arpeggiator, mixer and modulation panel controls;
  - `layout`, `layout_store`, `midi_mapping_store`, `dock`, `design`,
    `piano`, `chord_pad`, `eq`, `theme`, `unison` — layout presets, file
    names, tab titles, component sizes and the piano widget's key logic;
  - `chars` — the few standard-library string calls the library trusts.
- `app/` — ordinary Rust: file persistence, JSON, platform directories,
  egui drawing and input, floating-point audio values.
- `tests/` — tests of the library on concrete values.

# tmus

A terminal music player. Run `tmus` in any folder to browse it and its
subfolders, play local audio (decoded by ffmpeg), and watch a live spectrum.

## Layout

- `src/` is the verified library (Verus):
  - `audio.rs`: which paths are audio files, where ffmpeg is looked for, the
    16-bit stereo WAV that ffmpeg writes, and the playback state shared by the
    sound device and the interface (pause, resume, seek, play to the end).
  - `browser.rs`: the rows of a directory listing, directories before audio
    files, each group sorted stably by lower-cased name.
  - `session.rs`: the interface state and what each key does to it; a key
    returns at most one piece of outside work for the caller to perform.
  - `settings.rs`: visualisation preferences, colours as `#rrggbb`, and the
    JSON configuration document, which reads back what it stores.
  - `display.rs`: sizes and times as text, colour ramps, the visible part of
    the list, and how each line is marked.
  - `text.rs`: character-level helpers (trimming, decimal numbers, order of
    texts).
- `app/` is the program around it: the terminal, the sound device (cpal),
  ffmpeg, the file system, and the floating-point drawing.
- `tests/` exercises the library.

# EVE Log Scripts

A desktop tool that follows the EVE Online client's game logs and fleet chat
logs as they grow and runs small scripts over the new lines: a combat timer
that notifies when the weapons have gone quiet, a friendly-activation caller,
mention and decloak alerts, a mining hold estimate, and a log printer. Each
script answers with notification sounds.

## Layout

- `src/` is the library, verified with Verus:
  - `text`, `text_map`, `utf16`: text handling (trimming, splitting, ASCII
    lowercasing, decimal parsing), an ordered map keyed by text, and UTF-16
    encoding and lossy decoding.
  - `engine`: log headers, where a new log's entries start, the lines appended
    to a followed log, and the engine's state machine over file system events.
  - `patterns`: regular expressions through the `regex` crate.
  - `scripts`: the scripts' decisions, the notification registry and the
    combat timer's rule.
- `app/` is the program around it: the `eframe` window, the file watcher and
  file reading, the audio thread, and the stored settings.
- `tests/` runs the library on concrete logs.

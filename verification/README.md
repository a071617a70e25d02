# dl-media

A terminal front end for yt-dlp: it scans an address, picks cookies, asks what to
download, runs the downloads a few at a time, cleans and muxes subtitles, and reports.

- `src/` is the verified library (Verus): argument checks, settings defaults and the
  settings file text, reading yt-dlp's listings and metadata, site detection, the
  yt-dlp and ffmpeg argument lists, subtitle cleaning (through the regex crate, with
  what its two patterns match stated) and track selection, the resolution and
  subtitle menus, file and folder names, and the small decisions of the download
  loop. `json.rs` holds the JSON document model that the metadata is read
  through (parsed by serde_json); `text.rs` and `order.rs` hold the string and
  ordering functions the rest is stated over.
- `app/` is the program around it: the command line (clap), prompts (dialoguer,
  inquire), progress bars (indicatif), the settings file on disk (serde, toml), the
  processes it runs (yt-dlp, ffmpeg, ffprobe) and the async download loop (tokio).
- `tests/` runs the library on concrete inputs.

# media-convert

Re-encode a media library to a target codec (HEVC/x265 or AV1), preserving the
source directory tree. Two extra profiles produce a browser-friendly
`<stem>.web.mp4` or an HLS bundle `<stem>.hls/` next to each source.

`src/` is the planning library, verified with Verus. It holds the decisions and
does no input or output: which files are sources, where outputs go, whether a file is to
be encoded, the ffmpeg and ffprobe command lines, how progress reports and probe
results are read, the state of an interactive session, and the steps of its
workers. What the filesystem
and the programs say comes in as plain values.

- `text`, `path`, `order`, `units`: characters and numbers as text, slash
  paths, stable ordering, sizes and rates as shown.
- `container`, `codec`, `backend`, `upscale`, `profile`: the choices and what
  they mean to ffmpeg.
- `convert`, `probe`, `progress`, `running`, `inhibit`: the command lines and what comes
  back from the programs.
- `scan`, `output`: sources, subtitle files and outputs.
- `cli`: a run of the command line, file by file.
- `journal`, `listing`, `metadata`, `session`, `workers`: the interactive
  session.

Paths are text: a path that is not valid UTF-8 is reported and left out, in the
window where it was chosen there, on standard error where a walk comes to it.

`app/` holds the programs: the command line, and the window where it is started
as `media-convert-gui`. It reads and writes files, runs ffmpeg, ffprobe and
`systemd-inhibit`, and computes what is floating point. `tests/` runs the
library.

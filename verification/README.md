# webwallpaper

`wewa` shows web pages, local HTML projects and ShaderToy-style shaders as
the desktop wallpaper, on one display or on all of them, and stops them again
through a small line-based control protocol.

## Layout

- `src/` — the library, verified with Verus. It holds the decisions of the
  program with their contracts:
  - `text` — character-sequence helpers and the specifications of trimming,
    searching, replacing and decimal numbers;
  - `ipc` — the control protocol (`STOP:<n>`, `STOP:ALL`, `PING` and their
    answers), its parsers and printers, the answer to each command, and a
    client that runs one exchange over a caller-supplied transport;
  - `server` — URL decoding, the checks on requested paths, the file a
    request names, content types by extension, and the server's URLs;
  - `display` — the monitor model and the choice of the displays to cover;
  - `config` — instance file names and paths;
  - `commands` — URL detection and rewriting, how a local input is served,
    and the exit codes and messages of the commands;
  - `platform` — the platform errors, the runtime checks of each platform,
    and what a running instance does with a received command;
  - `shader`, `renderer` — `.shader` inputs, the wrapping of user GLSL and
    the mapping of compiler lines back to the user's source;
  - `builtin` — the sorted catalogue of built-in shaders;
  - `cli` — the choice of the command mode.
- `tests/` — tests of the library on concrete values.
- `app/` — the program: command-line parsing (clap), the file system, the
  HTTP server (tiny_http), sockets and named pipes, windows and web views
  (GTK/WebKitGTK, tao/wry, Win32, AppKit) and the GPU renderer (wgpu).

The program embeds its built-in shaders, textures and GNOME Shell extension
from `shaders/`, `textures/`, `builtins.json` and `gnome-extension/` next to
`app/`.

# faceauth

Face authentication for Linux: a daemon that owns the camera and the face models, a
command line tool to enroll, test and manage, a PAM module, and a helper for desktop
notifications.

What is decided is in the library and verified with Verus; what touches the machine
is around it.

| Place | What it holds |
|---|---|
| `src/text.rs` | Texts: trimming, searching, numbers, lines, replacement |
| `src/encoding.rs` | Face encodings as bit patterns, their hexadecimal form, matching |
| `src/model.rs` | Face models, their on-disk form, loading and atomic storing |
| `src/camera.rs` | Cameras: listing, suitability, stable names, frames |
| `src/auth.rs` | The loops that watch a camera, round by round |
| `src/ipc.rs` | Requests, responses and what a client makes of an answer |
| `src/services.rs` | The lists of services that may use face authentication |
| `src/daemon.rs` | Who may ask the daemon for what, and what it answers |
| `src/cli.rs` | The command line tool: choosing a camera, enrolling, reports |
| `src/notify.rs` | Notifications and the helper's command line |
| `src/pam.rs` | Which sessions the PAM module attends to, and what it answers |
| `src/messages.rs` | What is said, in the user's language |
| `src/error.rs` | Errors |
| `app/` | Files, sockets, threads, devices, the face encoder, JSON |

A function that needs something from the machine takes what came of it as an
argument, so that its contract covers every outcome. The public proof functions,
named `law_..`, state what holds across functions: that nobody but the user and root
gets at a model, that access is granted only after a successful attempt, that a
stored model is read back as it was written, and so on.

Encodings and distances are floating-point numbers. The library holds them as IEEE
754 bit patterns and never computes with them; patterns of numbers that are not
negative are ordered as the numbers are.

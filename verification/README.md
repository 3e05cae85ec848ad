# fourttyswipe

Four-finger swipe between active TTYs, with the parts that decide and compute
verified by [Verus](https://github.com/verus-lang/verus).

- Swipe left: next allocated VT. Swipe right: previous allocated VT.
- Only VTs that the kernel reports as allocated are visited.
- Where pictures of both screens can be had, the switch is a slide between
  them, shown from framebuffers of our own. The console's and the GUI's
  buffers are never written to.

| From, to | Outgoing image | Incoming image |
|---|---|---|
| tty, tty | fbdev | fbdev, captured after the switch while a frozen frame hides it |
| tty, X | fbdev | live X11 screenshot, or the last one taken |
| X, tty | X11 screenshot | last capture of that tty; on a first visit, captured after the switch |
| X, X | | not animated |

Switches that involve another GUI are instant.

## Layout

`src/` is the library. Every function in it has a contract, and every contract
is proved but one: what `String::from_utf8_lossy` returns is taken on trust, in
`xserver`. Facts that span several functions are the proof functions whose names
start with `law_`.

| Module | What it is about |
|---|---|
| `gesture` | what a recognised gesture means |
| `vt` | which terminals are allocated, and which comes next |
| `switching` | the course of a switch, whatever goes wrong on the way |
| `transition` | which pictures a switch is animated with, and the frames of the slide |
| `snapshot` | screen images, their pixel formats, cutting them out of memory |
| `history` | the last picture taken of each terminal |
| `fb` | where the console's picture lies in the framebuffer's memory |
| `kms` | buffers, drawing, page flips |
| `outputs` | the card and the output that show something |
| `console_mode` | text and graphics mode, and the marker that survives a crash |
| `xserver` | the X server of a terminal, by its process |
| `xauth` | the cookie in an Xauthority file |
| `xcapture` | the picture of an X server's screen |
| `text` | decimal numbers and white space |

`app/` is the program: it opens devices, makes the system calls and talks to
the X server, and asks the library what to do next. `tests/` exercises the
library on concrete values.

## Running

Root is needed for the VT ioctls, raw evdev reads, DRM master and the X
server's auth cookie. Why a switch isn't animated is logged to standard error.

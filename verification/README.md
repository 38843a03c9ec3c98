# window_switcher

The decisions behind a keyboard-driven window switcher for Windows, verified with
[Verus](https://github.com/verus-lang/verus).

- `src/` is the library. Every function in it is verified against its contract, but for
  those in `collections`, `text` and `manifest` that hand a call on to `indexmap`, `xml` or
  the standard library: their contracts say what is relied on.
  - `app`: the switcher as a whole, and what it does about each message
  - `switch_windows`, `fixed_order`, `sequences`: walking through the windows of one
    application
  - `switch_apps`: the panel of applications and the icons kept for it
  - `keyboard`, `messages`: hotkeys, and the messages they lead to
  - `painter`: the measures of the panel, and what lies under the pointer
  - `app_icon`, `icon_source`, `manifest`: the images of an icon, and where they are
    looked for
  - `pixels`, `icon_scale`, `binary32`, `rounding`: the visible part of an icon, and the
    size at which it is drawn
  - `collections`, `text`: what the library relies on from `indexmap` and from the
    standard library
- `app/` connects the library to the desktop: files, icons, drawing and the event loop.
- `tests/` runs the library on concrete values.

# win_app_switcher

macOS-style application switching for Windows: WIN+TAB shows one icon per
running application, WIN+§ (WIN+` on US keyboards) cycles the windows of the
active application, with a window list when WIN is held.

## Layout

- `src/` — the verified library (Verus). It holds the program's decisions,
  except those made in floating point, each with a contract proved against
  a mathematical model:
  - `hook` — the low-level keyboard hook's state machine (which keys are
    swallowed, which switcher events are posted, when the dummy key is
    injected);
  - `switcher` — the switcher session: from the first WIN+TAB / WIN+§ to the
    commit or cancel, as a function from state and event to next state and
    commands;
  - `apps` — grouping windows into applications, selection stepping, icon
    sources and version-resource text;
  - `filter` — which top-level windows belong in a switcher, and which
    foreground windows are shell overlays;
  - `pixels` — premultiplying, full-bleed detection and corner rounding of
    icon images;
  - `manifest` — reading a packaged app's logo path out of its
    `AppxManifest.xml`;
  - `update` — release tags and the update check's comparison;
  - `memo` — memo tables for slow shell lookups, with retry windows for
    failures;
  - `ui`, `desktop`, `text`, `config` — the dialog's selection and geometry
    helpers, tray-icon arithmetic, character scanning and settings enums.
- `tests/` — tests of the library on concrete values.
- `app/` — the Windows program around the library: window enumeration,
  Direct2D rendering, the tray icon, `config.toml` reading, the WinHTTP
  update check, and the code that works in floating point (the icon
  sharpness and plate tests, the downscale, the icon-row geometry).

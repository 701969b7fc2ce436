# Media bar

A media bar for Windows: a strip along the bottom of a display that shows what plays, with album
art, title, artist and a seek bar, and controls it.

`src/` is the library, written in Verus. It holds everything that the bar computes and decides:

| Module      | What it holds                                                             |
| ----------- | ------------------------------------------------------------------------- |
| `binary64`  | double precision on integers: rounding, quotient, product, whole part     |
| `seek`      | the fill of the seek bar, and where a drag leads                          |
| `blur`      | the box blur of the backdrop                                              |
| `thumbnail` | fitting, placing and cropping album art                                   |
| `layout`    | where everything lies, and what lies under the pointer                    |
| `paint`     | the steps that draw the bar                                               |
| `media`     | reading the media session, tracking its position, the playback requests   |
| `window`    | the bar's state, and what it does on each message                         |
| `settings`  | the settings, their ranges, and their form in the registry                |
| `dialog`    | the settings window                                                       |
| `fonts`     | the fonts that are offered and used                                       |
| `monitors`  | the displays and the strip that the bar takes                             |
| `menu`      | the context menu                                                          |
| `startup`   | starting with the system, the icon in the notification area               |
| `numbers`   | numbers as text, and as users type them                                   |
| `text`      | UTF-16                                                                    |

`app/` is the program around it: windows, threads, the registry, the media session, GDI and WIC. It
hands the library plain values and carries out what it gets back.

## Settings

| Setting    | Default                | Range                |
| ---------- | ---------------------- | -------------------- |
| Bar height | 40 px                  | 40-100 px            |
| Font face  | Segoe UI Variable Text | any installed font   |
| Font size  | 13 pt                  | any positive integer |

They are stored under `HKCU\Software\MediaBar`. The first run registers the bar to start with
Windows; the context menu toggles that.

# mymediatrail

The verified core of MyMediaTrail, a portable desktop catalog of video files
kept on removable drives.

- `src/` is the library, checked with Verus:
  - `models`: catalog records and the lifecycle status of a library root;
  - `text`: character-level helpers (white space, trimming, line and field
    splitting, decimal and hexadecimal text, separator normalization);
  - `paths`: Unix path text as `std::path` treats it (components, parent,
    prefix stripping that keeps the remaining text, joining);
  - `volume`: `findmnt` output handling and the step-by-step resolution and
    relocation of library roots whose drive moved;
  - `fingerprint`: which bytes of a file are hashed, and the BLAKE3 record;
  - `metadata`: the summary of an `ffprobe` report, command arguments and the
    base64 text of thumbnails;
  - `scanner`: the bookkeeping of a scan (media extensions, new, changed,
    moved, reappearing, skipped and missing items);
  - `media`: playing, merging duplicates, item locations, added and rebound
    roots.
- `tests/` exercises the library on concrete values.
- `app/` is the desktop application around it: Tauri commands, the SQLite
  database, the file system, `findmnt`, `ffprobe` and `ffmpeg`.

# pixaki_converter

Converts pixel-art editor documents — Pixaki packages (v3 `document.json`,
v2 `DocumentInfo.plist`) and Pixel Studio Pro `.psp` histories — into layered
animation documents.

- `src/` is the verified library (Verus):
  - `text` — exact and ASCII case-insensitive string comparison, decimal rendering;
  - `canvas` — the output document model and blend-mode names;
  - `pixaki` — Pixaki v3/v2 models and the conversion plans (layers, frames,
    which cel goes where);
  - `pixel_studio_pro_v2` — the `.psp` model and tool codes;
  - `pixels` — RGBA buffers and copying one onto another;
  - `timelapse` — assembling a timelapse from a layer-by-layer history replay;
  - `formats` — choosing the input reader and output writer.
- `app/` is the command-line program and the Android entry point: file I/O,
  JSON/plist parsing, the Aseprite writer and the per-format converters.
- `tests/` exercises the library on concrete documents.

# image_processor

An image processing tool with plugins, as a Verus-verified library and a thin
command line program.

- `src/` — the verified library:
  - `mirror_plugin`, `blur_plugin`: the two plugins' pixel work (horizontal
    mirror, box blur), stated byte by byte over `Seq<u8>`, with laws
    (mirroring twice is the identity; a blur keeps uniform images, and a
    radius-1 blur keeps every image);
  - `raster`: the `Image` type and its exchange with `image` crate buffers;
  - `plugin_loader`: plugin status codes, the checks before a plugin call and
    the meaning of the status it returns;
  - `error`: the error types;
  - `pixels`: buffer layout; `text`: trimming, integer parsing, decimal formatting.
- `app/` — `main`, file input and output, loading plugin libraries, the plugin-ABI
  entry points of the plugins, and the error types with their messages.
- `tests/` — tests of the library.

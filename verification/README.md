# jietu_viewer

The verified core of an image viewer, written in Verus.

`src/` is the library. Verus proves its functions against their contracts; the few
functions marked `#[verifier::external_body]` wrap calls into std, the `image` and
`psd` crates or kamadak-exif, and their contracts are trusted, not proved:

- `native` — format and size of browser-native images from their leading bytes
  (PNG, JPEG, GIF with frame count, BMP, WebP, AVIF), PSD and ICO header sizes.
- `decode` — classification by extension and content (HDR PNG through its cICP
  chunk), the decoder route of each category, the PSD check and flattening,
  temporary file names, PDF page checks and conversion targets.
- `psd_check` — the walk over a PSD file's sections, layer records, channel data,
  image data and resources that keeps out every file the psd crate would panic on.
- `raster` — decoding through the `image` crate per category, the Exif orientation of
  SDR inputs, and the PNG / JPEG / WebP encoders of "save as".
- `exif_groups` — Exif fields (decoded by kamadak-exif) grouped under Chinese headings.
- `frame_pool` — bookkeeping of the animation frame texture pool.
- `albums` — the logical album tree: folders, items, moves, imports.
- `batch`, `calendar` — batch-rename previews, date formatting and the Gregorian day
  count, and the checks made before one rename.
- `lru`, `hdr` — the least-recently-used cache of HDR sources and of SDR inputs, the
  steps that obtain a source, and the `itm:` keys.
- `anim`, `hybrid` — the animation file cache, the decoding backend choice, the
  prefetching decoder's frame stream, the coefficient slot bases of a JPEG XL frame,
  and small integer helpers.
- `bytes`, `text`, `strs` — byte, number and string helpers the rest builds on.

`app/` holds what Verus does not see: file and clock access, locks and condition
variables, JSON persistence and serialisation, and floating-point GPS rendering.
`tests/` exercises the library.

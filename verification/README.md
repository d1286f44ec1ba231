# Photo viewer

The decisions of a desktop photo viewer, as a library whose behaviour is stated in contracts
and proved with [Verus](https://github.com/verus-lang/verus), and a thin program around it.

## Layout

- `src/` is the verified library.
  - `natural`, `listing`, `imageset`, `path`: which files of a directory are shown, in natural
    order, and a cursor over them that wraps around.
  - `decode`, `raster`: decoding, EXIF orientation, turning and mirroring, scaling down.
  - `single`, `sizing`, `rounding`, `proportions`: sizes in single precision, computed on
    integers, and how far they are from the exact ones.
  - `inbox`, `batch`, `jobs`, `cache`, `worker`, `caption`: what the background workers take
    from their queues and decide.
  - `viewstate`: view mode, zoom and pan.
  - `config`: what is remembered between two runs, and where.
- `app/` is the program: window, threads, files, environment, and the floating-point
  arithmetic of the view.
- `tests/` runs the library.

## What is trusted

A few functions call other crates and are believed to do what their contracts say. They are
marked `external_body`, and each says in its documentation what is claimed of the call:
`decode` has those for EXIF parsing (`kamadak-exif`), decoding (`image`) and resizing
(`fast_image_resize`), and `inbox` has the one for taking a queued item from a standard channel.

Statements that relate several functions are public proof functions whose names start with
`law_`.

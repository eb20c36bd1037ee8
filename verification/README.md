# cirdean

Camera-native document detection and auto-capture, with its integer decision
logic verified by Verus.

- `src/` is the verified library:
  - `cycles`: canonical forms of four-cycles and bounded enumeration of the
    four-cycles of an intersection graph;
  - `graph`: the Hough intersection graph (shared lines, far-apart corners);
  - `lines`: Hough line extraction with escalating, resolution-scaled vote
    thresholds, through imageproc;
  - `contours`: outer borders of an edge map worth approximating, through
    imageproc's border following;
  - `frame`: row-major grayscale frames and the edge-neighbourhood test;
  - `candidates`: greedy spatial deduplication of ranked hypotheses;
  - `book`: centring the gutter estimate on a flat minimum;
  - `capture`: the stabilize / capture once / await page change state machine;
  - `detection`: detector provenance;
  - `camera_probe`: device, media-type, sample and photo warm-up decisions of
    the Windows research probe.
- `app/` holds the floating-point geometry, scoring and detectors, the image
  preprocessing, and the Windows camera probe's I/O, all calling the library
  for their decisions.
- `tests/` exercises the library.

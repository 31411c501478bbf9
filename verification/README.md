# radarc

Radar coverage over a digital elevation model (DEM), taking the radio horizon
into account.

- `src/` is the verified library (Verus): the row-major layout and shape checks
  of an elevation grid (`grid`), the decoding of SRTM `.hgt` tiles and their
  file names (`hgt`), the order in which grid cells are visited (`grid`), and
  the decisions that sort cells into visible and occluded ones (`coverage`).
- `app/` holds the floating-point geometry (bilinear sampling, terrain
  profiles, Earth curvature, radio-horizon ranges), file loading, the Plotly
  map, the wireframe renderer and the demo, built on the library.
- `tests/` exercises the library.

The original's interactive 3D viewer (a Bevy and egui application behind an
optional feature) is not part of this crate: Bevy's dependency tree alone
exceeds what this build accepts, and the viewer holds no logic beyond f32
scene and camera handling. Everything it displays comes from the coverage
computation above, which the demo and the wireframe renderer still use.

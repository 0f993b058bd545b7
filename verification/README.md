# h265rs

Building blocks of an H.265/HEVC decoder written in Verus, each stated by a
contract and proved:

- `bitstream`, `syntax::nal`, `syntax::rbsp`: Annex B byte streams, NAL unit
  headers, emulation prevention and RBSP trailing syntax.
- `syntax::bit_reader`, `syntax::binarization`, `syntax::cabac`: the bit
  reader with its descriptors, the Clause 9 binarizations and the CABAC
  arithmetic decoder with its context tables.
- `syntax::profile`, `syntax::parameter_sets`, `syntax::vui`,
  `syntax::reference_sets`, `syntax::scaling`, `syntax::sps`:
  profile/tier/level, VPS and SPS headers, VUI and HRD parameters,
  short-term reference picture sets, scaling lists and the sequence
  parameter set up to its extension flag.
- `syntax::pps`: the picture parameter set with tiles, deblocking control,
  scaling lists and the range extension.
- `syntax::slice_data`: `slice_segment_data()` structures read from `ae(v)`
  values through the `CabacReader` trait: SAO, motion vector differences and
  cross-component prediction.
- `syntax::residual`: the last-significant-coefficient position and the
  coefficient scan selection of `residual_coding()`.
- `geometry`, `scan`, `tiles`, `availability`, `format`: picture geometry,
  z-scan and coefficient scans, tile layouts and neighbour availability.
- `decoding`: Clause 8 processes, from intra and inter prediction through
  scaling, inverse transform, palette decoding and reconstruction to
  deblocking, SAO and reference picture management.

Laws of the library stand as public proof functions whose names begin with
`lemma_`. The tests under `tests/` run the library on concrete values.

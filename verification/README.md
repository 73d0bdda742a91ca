# jxl — verified building blocks of a JPEG XL VarDCT encoder

The library (`src/`) holds the integer logic of a VarDCT encoder, each
function with a Verus contract over mathematical models:

- `transform`, `transform_map`, `merge_map`, `special_map`, `map_candidates`:
  transform ids and shapes, transform maps, greedy merging of blocks into
  larger transforms, the small special transforms (AFV, DCT4x8, DCT2x2, ...)
  and the candidate maps tried per frame.
- `coeff_order`: natural scan orders, custom 8x8 orders sorted by non-zero
  counts, and their Lehmer codes.
- `tokenize`, `context_map`: AC tokens with their contexts, block-context
  maps, AC context-map candidates and cluster frequencies.
- `effort`, `quant_map`: effort settings, progressive pass splitting, alpha
  quantization and quant-field boosts.
- `header`, `group_sections`, `frame_plan`, `frame_sections`: frame
  headers and sections as lists of fields, the group layout of a frame, the
  tokenizing of its groups pass by pass, its AC context-map candidates, and
  the plan of a whole frame up to entropy coding.
- `pnm`, `pixels`, `options`, `jpeg`: input parsing (PNM, and PNG frames
  decoded by the `png` crate behind one trusted wrapper), pixel layouts and
  command-line checks.

Laws that span functions are public proof functions (`lemma_*`).

`app/` is the `jxle` command-line front end: argument parsing, file I/O
and conversions into the library's types. `tests/` runs the library on
concrete inputs.

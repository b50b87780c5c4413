# mv_extract

Motion vectors of H.264 and H.265 streams, read from the coded data alone: NAL units, parameter sets,
slice headers, CAVLC and CABAC, and motion-vector prediction. No sample is ever reconstructed;
residuals are parsed only to stay in step.

- `src/` is the library, written in Verus. Every function has a contract, and all of them are proved.
- `app/` is the program `extractor9` around it: command line, container access through libavformat,
  worker threads and the output file.
- `tests/` runs the library on hand-made streams, some of them written with a small arithmetic
  encoder.

## Layout of `src/`

| module | what it holds |
| --- | --- |
| `bits` | bit reader and Exp-Golomb codes |
| `framing` | emulation prevention, Annex-B and length-prefixed framing |
| `cabac` | the arithmetic decoding engine |
| `grid`, `motion`, `refs`, `stats` | block grids, vectors and rows, reference lists and picture order, counters |
| `reorder` | results of workers put back in order |
| `h264` | NAL units, parameter sets, CAVLC and CABAC macroblocks, B slices, export, pictures, grouping of a stream |
| `h264::reuse` | grids that are used again give the same result as new ones |
| `hevc` | NAL units, parameter sets, slice headers, coding tree, merge and AMVP, export, decoding of a stream |

## How things are stated

Each type has a model (`Bits`, `Engine`, `GridsV`, `FrameV`, ...), and each parsing step is a function
from the state before it to the state after it. A contract says that the code computes that
function. What holds beyond single calls is stated in proof functions named `law_...`: framing is
undone by splitting, an order count is the one nearest to the last, rows in both formats agree, the rows
of a macroblock tile it, pictures decode alike on new and on used grids and hence in any order of
work, and so on.

Arithmetic on values out of a stream wraps at 32 bits, so that damaged streams have a defined result
too. H.264 covers frame pictures in 4:2:0 and 4:2:2; H.265 covers one tile without wavefronts,
in pictures that need not be whole coding blocks.

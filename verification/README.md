# featrs

Expanding window statistics (mean, sum, minimum, maximum, population standard
deviation) over the `Float64` columns of polars data frames, verified with
Verus.

- `src/time_series/expanding.rs`: `ExpandingAggregator`, which is fitted to a
  frame and then transforms frames.
- `src/time_series/window.rs`: the accumulator and the row by row computation.
- `src/time_series/laws.rs`, `exact.rs`, `frame_laws.rs`: what holds of the
  statistics and of transformed frames as a whole.
- `src/binary64.rs`: bit patterns of floating-point numbers and their order.
- `src/arithmetic.rs`: the floating-point operations that a caller supplies.
- `src/frames.rs`: what is relied on of polars.
- `app/`: the same aggregator with the arithmetic of the machine.

`fit` and `transform` ask for a frame on which polars does not panic: names that
it can tell apart, columns that it can materialize. `checked_fit` and
`checked_transform` take any frame and give nothing on the others.

Cells are handled as 64-bit patterns. Minimum and maximum are computed and
proved on the patterns. The other statistics are stated as results of the
operations of `Arithmetic`: which operation is applied to what, in which order.
Where arithmetic is correctly rounded and every intermediate number can be
represented, they are proved to be the sum, the mean and the population
standard deviation of the window.

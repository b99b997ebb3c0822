# sonar_modern

Sonar contact detection with its decisions verified by Verus.

- `src/level.rs`: the order of `f32` samples read from their bit patterns.
- `src/detect.rs`: cutting a smoothed ping into signatures, choosing the
  contacts, finding their peaks and classifying them, with the laws that
  the report is unique, that a quiet ping yields nothing, and that a peak
  lies in its signature.
- `src/synth.rs`, `src/random.rs`: laying out a synthetic ping from random
  draws of the `rand` crate.
- `src/contact.rs`: contact type codes and their names.
- `app/`: the floating-point glue (smoothing, metres, degrees, strengths)
  and the program that prints the contacts of a synthetic ping.

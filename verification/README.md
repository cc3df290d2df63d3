# porkchop

A porkchop-plot generator for interplanetary mission design: over a grid of
departure dates and times of flight it solves Lambert's problem between two
planets and writes the launch C3, arrival C3 and launch-asymptote angles to
CSV files for plotting.

- `src/` is the verified library (Verus): the table of bodies that a search
  configuration names (`bodies`), and the start epoch of a search from its
  calendar date (`epoch`), computed by the ephemeris library `satkit` behind
  one trusted wrapper, and the metadata record written for the plotter
  (`metadata`).
- `app/` is the program around it: configuration reading, the
  floating-point orbital mechanics (orbital elements, synodic period,
  Hohmann transfer time, the Lambert grid search) and the CSV output.
- `tests/` exercises the library.

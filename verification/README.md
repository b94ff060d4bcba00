# aviutl2_track

Reading and writing the text form of AviUtl2 track bars, verified with Verus.

A track bar is stored as text such as
`50.000,100.000,コマ落ち時間制御@Basic_S,8|$|0,0.5,1|0,0,0.25,0.5,1,1,0.2,0.5`:
the values, the movement script and the flag field, then, each after a `|`,
the reference expression, the script's parameters and the time control
points.

- `src/` is the verified library. `parse` reads a text in two steps
  (`parse_head`, `parse_tail`), `render` writes one, `number` and `text`
  hold the character-level pieces (splitting, the decimal flag field, the
  shortest fixed-point text of a number, binary64 equality on bit
  patterns), `flag` the reference bit, and `laws` proves that reading then
  writing gives the text back and that writing then reading gives the parts
  back.
- `app/` holds the track types with binary64 numbers and converts between
  them and the library: reading and printing the numbers is floating point,
  which the library leaves to it.
- `tests/` runs the library on example track texts and on its edge cases.

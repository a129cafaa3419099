# gooey (verified layout core)

The layout logic of the Gooey GUI toolkit, written in Verus and proved against
its contracts. Lengths are integers in thousandths of a point.

- `text`: wrapping measured text into lines and aligning them
  (`TextWrapper::wrap`), with the model of wrapping as spec functions.
- `wrap_laws`: laws of wrapped text. Every line has its spans placed one after
  another and metrics covering them; lines are aligned as asked; single-line
  wrapping gives at most one line; text without a width or forced breaks is
  one line; multi-line wrapping drops nothing but whitespace, keeps lines
  within the width when every word fits, and breaks words greedily;
  single-line wrapping keeps the leading words that fit.
- `raster`: content sizes and areas of rasterized widgets, the content area
  within given bounds, the constraints for measuring content, and the
  rectangles that draw a border.
- `container`, `button`: where a container places its child; a button's size
  and where its label goes.
- `progress`: progress bars, the update of a progress indicator (with its
  animation plan), and the conversion of values to progress.
- `style`, `geometry`, `widget`: padding, borders, integer geometry and the
  widget traits. `layout_laws` proves laws of areas and containers.

`app/` converts floating-point points to and from library lengths, samples the
animation plan with its easing curves, holds the floating-point spinner
geometry, and the type-erased `AnyWidget` trait.

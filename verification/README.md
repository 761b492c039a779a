# svg3

The document model and the rendering decisions of svg3, an SVG renderer
extended with 3D primitives, written in Verus.

- `src/` is the verified library: the document parser and model, the
  definition indexes, the filter wiring, the render plan and the image
  decoding. The calls into `quick_xml`, `base64` and `png` stand behind
  small trusted wrappers; what those crates compute from their input is
  named, and the library's contracts are stated over those names (the
  parser's result, for instance, is the document that `quick_xml`'s event
  stream for the input describes).
- `tests/` runs the library on concrete documents and values.
- `app/` holds what Verus does not take: error types with `thiserror`
  derives, the GPU readback around the verified row unpadding, and the
  floating-point colour and stroke conversions.

# moq-vaapi

The decision-making core of a VA-API H.264 decoder and video post-processor,
verified with Verus.

The library talks to no driver. Each call comes back either with its result or
with a request: one thing the VA-API driver is to do next. Whoever holds the
driver does it and hands the reply back. What the library decides in between
(reference marking, output order, reference lists, the parameter buffers, which
surface a picture goes into) is stated in contracts and proved.

* `src/h264`: syntax elements, pictures, and the decoded picture buffer.
* `src/decode`: the decoder. `machine` says what every turn of the conversation
  with the driver does, `decoder` does it, `laws` holds what follows for a
  stream as a whole: that no picture is lost (`laws`), in which order pictures
  come out (`order`, `reorder`) and how late (`delay`, `window`), what they look
  like (`shape`, `size`), which surfaces they are in (`surfaces`), and that the
  stream alone decides all that (`calls`).
* `src/dmabuf.rs`, `src/vpp.rs`, `src/color.rs`: importing DMA-BUFs,
  post-processing, color spaces.
* `app`: the loop around the library, over a VA-API binding and a bitstream
  parser supplied by the caller.
* `tests`: the library against a driver in software.

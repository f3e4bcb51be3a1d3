# aura

A video player that decodes H.264 on the GPU with Vulkan Video. The
bitstream handling and the decisions the player makes on plain values form a
library whose behaviour is stated in contracts and proved with Verus; the
window, the Vulkan calls and the file reading sit in a thin program around it.

## Layout

- `src/` — the verified library.
  - `bitstream.rs`: the bit-level model shared by the parsers (bits, fixed-width
    fields, Exp-Golomb codes, and where an integer of the reader overflows).
  - `converter.rs`: AVCC to Annex-B conversion, NAL unit headers, slice
    headers (reading through emulation-prevention bytes), and how a decoded
    picture is numbered.
  - `h264_parser.rs`: SPS and PPS extraction from an `avcC` record and their
    parsing into the values of Vulkan's H.264 parameter set structures.
  - `types.rs`: decode extensions, codec profiles and their Vulkan values,
    and the codec a video session is set up for.
  - `resources.rs`: memory type selection, buffer sizes and alignment, coded
    picture dimensions, frame slots and reference slots.
  - `args.rs`: the command-line options and the frame pacing they ask for.
  - `laws.rs`: properties that relate several functions, proved.
- `tests/` — tests of the library on concrete values.
- `app/` — the player: command line, window and event loop, file reading,
  and the Vulkan setup and decoding calls.

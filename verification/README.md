# reef-infer

A runtime for the Google Coral Edge TPU USB Accelerator whose decisions are
verified with [Verus](https://github.com/verus-lang/verus): instruction
decoding, model loading, address patching, firmware download, chip bring-up,
weight upload and inference.

## Layout

- `src/` is the verified library. It performs no I/O. What needs a device is a
  state machine: the caller performs the requested transfer and hands back the
  reply.
  - `parser`, `listing`: instruction streams and their disassembly
  - `model`, `loader`, `summary`: compiled models
  - `patch`: addresses in instruction bitstreams
  - `usb`: device identification, register and bulk transfers, firmware download
  - `chip`: the bring-up script
  - `runner`: opening a device (`opening`), weight upload (`upload`) and
    inference (`inference`)
  - `cli`, `bench`: command line and benchmark runs
  - `bytes`, `text`: little-endian numbers and plain-text rendering
- `app/` is the program around the library: USB transport over `nusb`, FlatBuffer
  and FlexBuffer decoding, floating-point quantization and Python bindings.
- `tests/` holds the tests of the library.

Public proof functions named `law_...` state what holds across functions, for
instance that a download is done only when it has carried all of the firmware,
that an upload is done only when the device has taken the weights, that an
inference ends whatever the device does, and that its output is what was
received, one chunk per output layer.

## Firmware

A device in DFU mode gets the image `apex_latest_single_ep.bin` from the working
directory, or the file that `REEF_INFER_FIRMWARE` names.

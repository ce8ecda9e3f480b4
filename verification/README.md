# Upalla

Real-time noise suppression for desktop audio. A DeepFilterNet network does the denoising; this
project is what stands around it: sample buffers and rings, the chains that audio moves through, the
decisions when a capture stream is opened or closed, the spectra that the network looks back on, and
the state behind windows and tray menus.

- `src/` is the library. Verus proves its functions against their contracts. The calls into outside
  crates are the exception: what is said of them below is stated and not proved.
- `tests/` runs the library on concrete values.
- `app/` is ordinary Rust around the library: files, audio servers, devices, threads, and all
  floating-point arithmetic. The library moves samples as 32-bit patterns, or is generic in the number
  type and takes the operations as functions.

## What is proved

| Module | Subject |
| --- | --- |
| `buffer`, `chunk`, `bytes`, `wav` | samples in order, none lost or doubled, latency bounded to whole frames |
| `chain`, `pulse`, `mac`, `coreaudio` | what a chain does with a frame; when captures open and close |
| `pipewire`, `queue`, `port`, `ring` | what a callback hands over, takes back and plays |
| `devices`, `server`, `blackhole` | which devices are offered and chosen; no route back into the filter itself |
| `network`, `rolling`, `denoiser`, `settings` | stages, hidden states, remembered spectra, parameters and resets of the network |
| `stft`, `dsp`, `features`, `filterbank`, `meter` | windows, masks, filters, features and levels over any number type |
| `plugin`, `block` | the audio plugin: blocks in and out, batches to a worker, results applied |
| `gui`, `window`, `layout`, `icon` | switches, menus, look-by-look updates, geometry, pixels |

The few outside functions that the library calls (of `ringbuf`, `crossbeam-queue`, `rust-ini` and
`image`) stand behind small wrappers, each with what is claimed of the function. A queue that two
threads share promises its holders what was offered and answered, not what the other side does.

## Building the application

The published `deep_filter` crate carries no network. With a version that has its `tract` module, build
with `--cfg tract`; the ONNX Runtime glue is built with `--cfg ort`.

`upalla pulse` opens an egui window from the tray. The plugin's entry points for a host, and windows of
other toolkits, are left to their frameworks: `app/plugin_host.rs` takes plain slices, and `gui`,
`window` and `layout` hold what such windows show and decide.

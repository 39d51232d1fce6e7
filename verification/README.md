# RODECaster Virtual Audio Device

A daemon that shows RODE USB audio hardware (RODECaster Pro II, Duo) to applications as
11 virtual inputs and 5 virtual outputs. Audio passes between the USB side and the ALSA
side through ring buffers in shared memory, one per channel.

The logic is a library that is verified with Verus; what talks to the system is a program
around it.

## Library (`src/`)

| Module | What it holds |
|--------|---------------|
| `audio_format` | Sample formats, frame sizes, conversion between bytes and samples |
| `float_bits` | Binary32 floating point on bit patterns, with integers alone |
| `ring_buffer` | Ring geometry, ring buffers, one ring per channel |
| `usb_descriptor` | USB Audio Class 2.0 descriptors and the topology they describe |
| `usb_bridge` | Recognising devices, serving the rings on behalf of the hardware |
| `alsa_bridge` | Searching for PCM devices, moving audio, pacing |
| `mixer` | Volume and mute per channel |
| `drift` | Fill levels and the correction they call for |
| `config`, `channel_map` | Channels, defaults |
| `text` | Names put together from parts |

Every public function states what it returns. Functions named `law_...` state what holds
of several of them together, for instance that a ring gives back what was written to it,
in order.

Floating-point numbers are `u32` bit patterns, as `f32::to_bits` gives them.

## Program (`app/`)

Configuration files, signals, shared memory, USB and ALSA. It needs the development files
of `libasound2` and `libusb-1.0`.

The program reads `/etc/rodecaster-vad/config.toml`, or else `rodecaster-vad.toml` in the
working directory, or else takes the built-in configuration.

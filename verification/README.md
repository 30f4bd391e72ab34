# maschine_mk1

Verified protocol codecs and controller logic for the Native Instruments
Maschine Mk1 (USB 17cc:0808): 16 pressure pads, 11 endless knobs, 41 backlit
buttons and two 255x64 grayscale displays.

| path | what |
|------|------|
| `src/lib.rs` | constants, device info, DIN MIDI OUT |
| `src/input.rs` | knobs, buttons, pads, EP 0x81 messages |
| `src/leds.rs` | LED state and frames |
| `src/display.rs`, `src/line.rs`, `src/patterns.rs` | framebuffers, init and frame messages, the recorded line they go over, test patterns |
| `src/usb.rs`, `src/attach.rs` | host session, command queue, full-speed descriptor surgery |
| `src/osc.rs` | OSC messages |
| `src/controls.rs`, `src/profile.rs` | control names, profiles |
| `src/engine.rs`, `src/engine_laws.rs` | the OSC engine, and what holds of it as a whole |
| `src/config.rs`, `src/portal.rs`, `src/web.rs`, `src/boot.rs` | configuration, setup portal, profiles page, boot decisions |
| `src/bridge.rs` | the desktop bridge |
| `src/text.rs` | text helpers |
| `app/main.rs` | the desktop bridge program |
| `app/firmware/` | the ESP32-S3 firmware, a program of its own |

The library computes on plain values and does no I/O. OSC floats cross its
border as bits, or as a numerator and a denominator. Functions named `law_*`
state what holds across several functions.

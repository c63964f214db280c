# Nebula Aura (verified core)

Nebula Aura is a CLAP/VST3 spectral exciter plugin. This crate holds the parts
of it that decide rather than compute on audio, each with a contract proved by
Verus:

- `src/preset.rs`: the preset store (name to serialized text, listed in name
  order) and the MIDI controller mapping.
- `src/session.rs`: the bounded undo history, the A/B comparison slots and the
  routing of controller changes.
- `src/analysis.rs`: the analysis window size chosen for a host buffer size.
- `src/params.rs`: oversampling modes and the parameter ids a controller can
  drive.
- `src/labels.rs`: the status texts of the editor.
- `src/text_order.rs`: the byte order in which names are compared and listed.

`app/` is the plugin itself around this core: the nih_plug `Plugin`
implementation, the floating-point DSP and spectrum analysis, the egui editor
and the serde encoding of presets.

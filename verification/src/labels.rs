use vstd::prelude::*;

verus! {

/// The status text that shows which comparison slot is live.
pub fn ab_label(is_a: bool) -> (r: &'static str)
    ensures
        r@ == (if is_a {
            "A/B: A"@
        } else {
            "A/B: B"@
        }),
{
    if is_a {
        "A/B: A"
    } else {
        "A/B: B"
    }
}

/// The status text that shows whether MIDI learn is on.
pub fn midi_label(midi_enabled: bool) -> (r: &'static str)
    ensures
        r@ == (if midi_enabled {
            "MIDI Learn: On"@
        } else {
            "MIDI Learn: Off"@
        }),
{
    if midi_enabled {
        "MIDI Learn: On"
    } else {
        "MIDI Learn: Off"
    }
}

/// The text the preset menu shows: the chosen name, or a prompt when none is
/// chosen yet.
pub fn preset_selection_text(selected: &str) -> (r: String)
    ensures
        r@ == (if selected@.len() == 0 {
            "Select preset"@
        } else {
            selected@
        }),
{
    if selected.is_empty() {
        "Select preset".to_owned()
    } else {
        selected.to_owned()
    }
}

} // verus!

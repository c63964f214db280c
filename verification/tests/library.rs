use nebula_aura::analysis::{fft_size_for, MAX_FFT_SIZE, MIN_FFT_SIZE};
use nebula_aura::labels::{ab_label, midi_label, preset_selection_text};
use nebula_aura::params::{OversamplingMode, ParamTarget};
use nebula_aura::preset::{MappingStore, PresetStore};
use nebula_aura::session::{route_midi_cc, AbSlots, UndoHistory, MAX_UNDO_STEPS};
use nebula_aura::text_order::{compare_bytes, compare_names, same_text, NameOrder};

#[test]
fn preset_store_starts_empty() {
    let store = PresetStore::default();
    assert!(store.list().is_empty());
    assert_eq!(store.load("anything"), None);
}

#[test]
fn preset_load_after_save() {
    let mut store = PresetStore::default();
    store.save("Bright", "{\"mix\":50.0}".to_string());
    assert_eq!(store.load("Bright"), Some("{\"mix\":50.0}".to_string()));
    assert_eq!(store.load("bright"), None);
}

#[test]
fn preset_save_replaces_same_name() {
    let mut store = PresetStore::default();
    store.save("Warm", "one".to_string());
    store.save("Other", "two".to_string());
    store.save("Warm", "three".to_string());
    assert_eq!(store.load("Warm"), Some("three".to_string()));
    assert_eq!(store.load("Other"), Some("two".to_string()));
    assert_eq!(store.list(), vec!["Other".to_string(), "Warm".to_string()]);
}

#[test]
fn preset_list_is_in_byte_order() {
    let mut store = PresetStore::default();
    for name in ["delta", "Zed", "alpha", "\u{e9}clair", "", "alph"] {
        store.save(name, name.to_uppercase());
    }
    let expected: Vec<String> = vec!["", "Zed", "alph", "alpha", "delta", "\u{e9}clair"]
        .into_iter()
        .map(|s| s.to_string())
        .collect();
    assert_eq!(store.list(), expected);
    let mut sorted = expected.clone();
    sorted.sort();
    assert_eq!(store.list(), sorted);
}

#[test]
fn preset_listing_does_not_depend_on_save_order() {
    let mut a = PresetStore::default();
    let mut b = PresetStore::default();
    for name in ["c", "a", "b"] {
        a.save(name, String::new());
    }
    for name in ["b", "c", "a"] {
        b.save(name, String::new());
    }
    assert_eq!(a.list(), b.list());
}

#[test]
fn preset_saved_name_is_listed() {
    let mut store = PresetStore::default();
    store.save("x", String::new());
    store.save("y", String::new());
    assert!(store.list().contains(&"y".to_string()));
    assert_eq!(store.list().len(), 2);
}

#[test]
fn names_compare_like_strings() {
    assert_eq!(compare_names("a", "b"), NameOrder::Less);
    assert_eq!(compare_names("b", "a"), NameOrder::Greater);
    assert_eq!(compare_names("ab", "ab"), NameOrder::Equal);
    assert_eq!(compare_names("ab", "abc"), NameOrder::Less);
    assert_eq!(compare_names("Z", "a"), NameOrder::Less);
    assert_eq!(compare_names("\u{e9}", "z"), NameOrder::Greater);
    assert_eq!(compare_bytes(&[1, 2, 3], &[1, 2, 4]), NameOrder::Less);
    assert_eq!(compare_bytes(&[], &[]), NameOrder::Equal);
    assert!(same_text("mix", "mix"));
    assert!(!same_text("mix", "mi"));
}

#[test]
fn mapping_store_default_maps_nothing() {
    let mapping = MappingStore::default();
    for cc in 0..=255u8 {
        assert_eq!(mapping.apply(cc), None);
    }
}

#[test]
fn param_ids_resolve() {
    assert_eq!(ParamTarget::from_id("in-level"), Some(ParamTarget::InputLevel));
    assert_eq!(ParamTarget::from_id("out-level"), Some(ParamTarget::OutputLevel));
    assert_eq!(ParamTarget::from_id("harmonics"), Some(ParamTarget::Harmonics));
    assert_eq!(ParamTarget::from_id("frequency"), Some(ParamTarget::Frequency));
    assert_eq!(ParamTarget::from_id("slope"), Some(ParamTarget::Slope));
    assert_eq!(ParamTarget::from_id("odd"), Some(ParamTarget::Odd));
    assert_eq!(ParamTarget::from_id("even"), Some(ParamTarget::Even));
    assert_eq!(ParamTarget::from_id("mix"), Some(ParamTarget::Mix));
    assert_eq!(ParamTarget::from_id("phase"), None);
    assert_eq!(ParamTarget::from_id("Mix"), None);
    assert_eq!(ParamTarget::from_id(""), None);
}

#[test]
fn midi_is_ignored_when_disabled_or_unassigned() {
    let mapping = MappingStore::default();
    assert_eq!(route_midi_cc(&mapping, false, 7), None);
    assert_eq!(route_midi_cc(&mapping, true, 7), None);
}

#[test]
fn oversampling_factors() {
    assert_eq!(OversamplingMode::Off.factor(), 1);
    assert_eq!(OversamplingMode::X2.factor(), 2);
    assert_eq!(OversamplingMode::X4.factor(), 4);
    assert_eq!(OversamplingMode::X6.factor(), 6);
    assert_eq!(OversamplingMode::X8.factor(), 8);
}

#[test]
fn oversampling_menu_labels() {
    assert_eq!(OversamplingMode::Off.menu_label(), "Off");
    assert_eq!(OversamplingMode::X2.menu_label(), "2x");
    assert_eq!(OversamplingMode::X4.menu_label(), "4x");
    assert_eq!(OversamplingMode::X6.menu_label(), "6x");
    assert_eq!(OversamplingMode::X8.menu_label(), "8x");
}

#[test]
fn fft_size_values() {
    assert_eq!(fft_size_for(0), 1024);
    assert_eq!(fft_size_for(1), 1024);
    assert_eq!(fft_size_for(512), 1024);
    assert_eq!(fft_size_for(1024), 1024);
    assert_eq!(fft_size_for(1025), 2048);
    assert_eq!(fft_size_for(2048), 2048);
    assert_eq!(fft_size_for(3000), 4096);
    assert_eq!(fft_size_for(4097), 8192);
    assert_eq!(fft_size_for(8192), 8192);
    assert_eq!(fft_size_for(100_000), 8192);
    assert_eq!(fft_size_for(usize::MAX / 2 + 1), 8192);
}

#[test]
fn fft_size_is_bounded_power_of_two_and_monotone() {
    let mut last = 0;
    for n in 0..20_000usize {
        let size = fft_size_for(n);
        assert!(size.is_power_of_two());
        assert!(MIN_FFT_SIZE <= size && size <= MAX_FFT_SIZE);
        if n <= MAX_FFT_SIZE {
            assert!(n <= size);
        }
        assert!(last <= size);
        last = size;
        assert_eq!(size, n.max(1024).next_power_of_two().min(8192));
    }
}

#[test]
fn undo_keeps_newest_steps() {
    let mut history: UndoHistory<u32> = UndoHistory::new();
    for i in 0..60u32 {
        history.push_undo(i);
        assert!(history.undo().len() <= MAX_UNDO_STEPS);
        assert_eq!(*history.undo().last().unwrap(), i);
    }
    let expected: Vec<u32> = (10..60).collect();
    assert_eq!(history.undo(), &expected);
    assert!(history.redo().is_empty());
}

#[test]
fn undo_grows_until_bound() {
    let mut history: UndoHistory<u32> = UndoHistory::new();
    assert!(history.undo().is_empty());
    history.push_undo(5);
    history.push_undo(6);
    assert_eq!(history.undo(), &vec![5, 6]);
}

#[test]
fn ab_toggle_goes_to_other_slot() {
    let mut ab = AbSlots::new("a0", "b0");
    assert!(ab.is_a());
    assert_eq!(*ab.live(), "a0");
    ab.toggle_ab("edited-a");
    assert!(!ab.is_a());
    assert_eq!(*ab.live(), "b0");
}

#[test]
fn ab_toggle_twice_restores() {
    let mut ab = AbSlots::new(1, 2);
    ab.toggle_ab(10);
    ab.toggle_ab(20);
    assert!(ab.is_a());
    assert_eq!(*ab.live(), 10);
    ab.toggle_ab(30);
    assert_eq!(*ab.live(), 20);
}

#[test]
fn status_labels() {
    assert_eq!(ab_label(true), "A/B: A");
    assert_eq!(ab_label(false), "A/B: B");
    assert_eq!(midi_label(true), "MIDI Learn: On");
    assert_eq!(midi_label(false), "MIDI Learn: Off");
    assert_eq!(preset_selection_text(""), "Select preset");
    assert_eq!(preset_selection_text("Bright"), "Bright");
}

use fastwave_core::errors::CoreError;
use fastwave_core::store::{Hierarchy, HierarchyVar, RawChange, Waveform, WaveformStore};
use fastwave_core::timeline::VarFormat;

fn change(time_index: u32, value: &str) -> RawChange {
    RawChange { time_index, value: value.to_string() }
}

fn two_signal_waveform() -> Waveform {
    let hierarchy = Hierarchy {
        vars: vec![
            HierarchyVar { name: "top.clk".to_string(), signal_ref: 0 },
            HierarchyVar { name: "top.data".to_string(), signal_ref: 1 },
        ],
    };
    let time_table: Vec<u64> = vec![0, 10, 20, 30, 40];
    let signals = vec![
        vec![change(0, "0"), change(1, "1"), change(2, "0")],
        vec![change(0, "x"), change(3, "y")],
    ];
    Waveform::new(hierarchy, time_table, signals).expect("backend data should be accepted")
}

#[test]
fn open_store_has_no_waveform() {
    let store = WaveformStore::new();
    assert!(matches!(store.hierarchy(), Err(CoreError::NoWaveformLoaded)));
    assert!(matches!(store.time_table(), Err(CoreError::NoWaveformLoaded)));
    assert!(matches!(store.get_signal(0), Err(CoreError::NoWaveformLoaded)));
}

#[test]
fn open_bumps_generation_and_serves_hierarchy() {
    let mut store = WaveformStore::new();
    let g1 = store.open(two_signal_waveform());
    assert_eq!(g1, 1);
    let h = store.hierarchy().expect("a waveform is open");
    assert_eq!(h.vars.len(), 2);
    assert_eq!(h.vars[0].name, "top.clk");
    let g2 = store.open(two_signal_waveform());
    assert_eq!(g2, 2);
}

#[test]
fn get_before_load_is_refused() {
    let mut store = WaveformStore::new();
    store.open(two_signal_waveform());
    assert!(matches!(store.get_signal(0), Err(CoreError::SignalNotLoaded)));
}

#[test]
fn load_then_get_serves_the_series() {
    let mut store = WaveformStore::new();
    store.open(two_signal_waveform());
    store.load_signal(1).expect("signal 1 exists");
    let cs = store.get_signal(1).expect("loaded");
    assert_eq!(cs.len(), 2);
    assert_eq!(cs[0].value, "x");
    assert_eq!(cs[1].time_index, 3);
}

#[test]
fn load_unknown_signal_is_refused() {
    let mut store = WaveformStore::new();
    store.open(two_signal_waveform());
    assert!(matches!(store.load_signal(2), Err(CoreError::SignalNotLoaded)));
    assert!(matches!(WaveformStore::new().load_signal(0), Err(CoreError::NoWaveformLoaded)));
}

#[test]
fn unload_is_idempotent_and_total() {
    let mut store = WaveformStore::new();
    // Unloading with no waveform open is a no-op.
    store.unload_signal(0);
    store.open(two_signal_waveform());
    // Unloading a never-loaded or unknown signal is a no-op too.
    store.unload_signal(0);
    store.unload_signal(99);
    store.load_signal(0).unwrap();
    store.unload_signal(0);
    assert!(matches!(store.get_signal(0), Err(CoreError::SignalNotLoaded)));
}

#[test]
fn load_unload_load_round_trips() {
    // The round trip yields the same series as a single load.
    let mut store = WaveformStore::new();
    store.open(two_signal_waveform());
    store.load_signal(0).unwrap();
    let first: Vec<(u32, String)> =
        store.get_signal(0).unwrap().iter().map(|c| (c.time_index, c.value.clone())).collect();
    store.unload_signal(0);
    store.load_signal(0).unwrap();
    let second: Vec<(u32, String)> =
        store.get_signal(0).unwrap().iter().map(|c| (c.time_index, c.value.clone())).collect();
    assert_eq!(first, second);
}

#[test]
fn malformed_backend_data_is_a_load_failure() {
    let empty_hierarchy = || Hierarchy { vars: Vec::new() };
    // Unsorted time table.
    let r = Waveform::new(empty_hierarchy(), vec![10, 0], Vec::new());
    assert!(matches!(r, Err(CoreError::LoadFailure)));
    // Change series not strictly ascending by time-index.
    let r = Waveform::new(
        empty_hierarchy(),
        vec![0, 1],
        vec![vec![change(1, "a"), change(1, "b")]],
    );
    assert!(matches!(r, Err(CoreError::LoadFailure)));
    // Consecutive changes with the same value (not coalesced).
    let r = Waveform::new(
        empty_hierarchy(),
        vec![0, 1],
        vec![vec![change(0, "a"), change(1, "a")]],
    );
    assert!(matches!(r, Err(CoreError::LoadFailure)));
    // Change pointing past the time table.
    let r = Waveform::new(empty_hierarchy(), vec![0], vec![vec![change(5, "a")]]);
    assert!(matches!(r, Err(CoreError::LoadFailure)));
    // Hierarchy entry naming no signal.
    let h = Hierarchy { vars: vec![HierarchyVar { name: "ghost".to_string(), signal_ref: 3 }] };
    let r = Waveform::new(h, vec![0], Vec::new());
    assert!(matches!(r, Err(CoreError::LoadFailure)));
}

#[test]
fn render_timeline_loads_and_renders() {
    let mut store = WaveformStore::new();
    let generation = store.open(two_signal_waveform());
    let tl = store
        .render_timeline(generation, 0, 10, 40, 0, 16, VarFormat::Binary)
        .expect("render should succeed");
    // Signal 0 changes at ticks 0, 10, 20 -> columns 0, 1, 2 at ten ticks
    // per pixel; the last value runs to the right edge.
    assert_eq!(tl.blocks.len(), 3);
    assert_eq!(tl.blocks[0].x, 0);
    assert_eq!(tl.blocks[1].x, 1);
    assert_eq!(tl.blocks[2].x, 2);
    assert_eq!(tl.blocks[2].width, 38);
    // The render left the signal loaded.
    assert!(store.get_signal(0).is_ok());
}

#[test]
fn render_with_stale_generation_is_refused() {
    let mut store = WaveformStore::new();
    let old_generation = store.open(two_signal_waveform());
    store.open(two_signal_waveform());
    let r = store.render_timeline(old_generation, 0, 10, 40, 0, 16, VarFormat::Hexadecimal);
    assert!(matches!(r, Err(CoreError::WaveformReplaced)));
}

#[test]
fn render_unknown_signal_is_refused() {
    let mut store = WaveformStore::new();
    let generation = store.open(two_signal_waveform());
    let r = store.render_timeline(generation, 7, 10, 40, 0, 16, VarFormat::Decimal);
    assert!(matches!(r, Err(CoreError::SignalNotLoaded)));
    let r = WaveformStore::new().render_timeline(0, 0, 10, 40, 0, 16, VarFormat::Decimal);
    assert!(matches!(r, Err(CoreError::NoWaveformLoaded)));
}

#[test]
fn render_invalid_viewport_yields_empty_timeline() {
    let mut store = WaveformStore::new();
    let generation = store.open(two_signal_waveform());
    let tl = store
        .render_timeline(generation, 0, 0, 40, 0, 16, VarFormat::Signed)
        .expect("an unmappable viewport is not an error");
    assert!(tl.blocks.is_empty());
    let tl = store
        .render_timeline(generation, 0, 10, 0, 0, 16, VarFormat::Ascii)
        .expect("an unmappable viewport is not an error");
    assert!(tl.blocks.is_empty());
}

use std::cell::Cell;

use fastwave_core::compositor::compose_timeline;
use fastwave_core::decoders::{DecoderRegistry, FormatStep};
use fastwave_core::store::RawChange;
use fastwave_core::timeline::{distinct_plan, label_texts, select_texts, with_label_texts, Timeline};

fn change(time_index: u32, value: &str) -> RawChange {
    RawChange { time_index, value: value.to_string() }
}

/// Drives the decoder-chain protocol to completion, with `invoke` standing
/// in for the sandboxed decoders.
fn run_chain(reg: &DecoderRegistry, value: String, invoke: impl Fn(usize, &str) -> String) -> String {
    let mut step = reg.format_begin(value);
    loop {
        match step {
            FormatStep::Done { output } => return output,
            FormatStep::Pending { index, input } => {
                let output = invoke(index, &input);
                step = reg.format_resume(index, output);
            },
        }
    }
}

fn render() -> Timeline {
    let changes = vec![change(0, "00"), change(1, "ff"), change(2, "a0")];
    let time_table: Vec<u64> = vec![0, 10, 20];
    compose_timeline(&changes, &time_table, 2, 40, 0, 12)
}

#[test]
fn identity_chain_leaves_labels_unchanged() {
    // With zero decoders registered the full render pipeline shows the raw
    // values: formatting every label through the empty chain and writing
    // the results back is the identity.
    let tl = render();
    let reg = DecoderRegistry::new();
    let texts = label_texts(&tl);
    assert_eq!(texts, vec!["00", "ff", "a0"]);
    let formatted: Vec<String> =
        texts.into_iter().map(|t| run_chain(&reg, t, |_, _| panic!("no decoder to run"))).collect();
    let out = with_label_texts(&tl, formatted);
    let labels: Vec<String> =
        out.blocks.iter().map(|b| b.label.as_ref().unwrap().text.clone()).collect();
    assert_eq!(labels, vec!["00", "ff", "a0"]);
}

#[test]
fn decoder_outputs_replace_labels_in_block_order() {
    let tl = render();
    let mut reg = DecoderRegistry::new();
    reg.add_path("hex.wasm".to_string(), true);
    reg.add_path("bang.wasm".to_string(), true);
    // Decoder 0 uppercases, decoder 1 appends a marker: the label becomes
    // D2(D1(raw)).
    let invoke = |index: usize, input: &str| match index {
        0 => input.to_uppercase(),
        _ => format!("{input}!"),
    };
    let texts = label_texts(&tl);
    let formatted: Vec<String> =
        texts.into_iter().map(|t| run_chain(&reg, t, invoke)).collect();
    let out = with_label_texts(&tl, formatted);

    let labels: Vec<String> =
        out.blocks.iter().map(|b| b.label.as_ref().unwrap().text.clone()).collect();
    assert_eq!(labels, vec!["00!", "FF!", "A0!"]);
    // Geometry and label positions are untouched.
    for (before, after) in tl.blocks.iter().zip(out.blocks.iter()) {
        assert_eq!(before.x, after.x);
        assert_eq!(before.width, after.width);
        assert_eq!(before.height, after.height);
        let lb = before.label.as_ref().unwrap();
        let la = after.label.as_ref().unwrap();
        assert_eq!(lb.x, la.x);
        assert_eq!(lb.y, la.y);
    }
}

#[test]
fn repeated_values_are_formatted_once() {
    // A signal that toggles between two values shows many blocks but only
    // two distinct visible values: the chain runs once per distinct value
    // and the outputs fan back out to every block.
    let changes: Vec<RawChange> =
        (0..6u32).map(|i| change(i, if i % 2 == 0 { "lo" } else { "hi" })).collect();
    let time_table: Vec<u64> = (0..6u64).map(|i| i * 10).collect();
    let tl = compose_timeline(&changes, &time_table, 2, 40, 0, 12);
    assert_eq!(tl.blocks.len(), 6);

    let mut reg = DecoderRegistry::new();
    reg.add_path("upper.wasm".to_string(), true);
    let invocations = Cell::new(0usize);
    let invoke = |_: usize, input: &str| {
        invocations.set(invocations.get() + 1);
        input.to_uppercase()
    };

    let texts = label_texts(&tl);
    let (distinct, positions) = distinct_plan(&texts);
    assert_eq!(distinct, vec!["lo", "hi"]);
    let outputs: Vec<String> =
        distinct.into_iter().map(|v| run_chain(&reg, v, invoke)).collect();
    assert_eq!(invocations.get(), 2);
    let formatted = select_texts(&outputs, &positions);
    let out = with_label_texts(&tl, formatted);
    let labels: Vec<String> =
        out.blocks.iter().map(|b| b.label.as_ref().unwrap().text.clone()).collect();
    assert_eq!(labels, vec!["LO", "HI", "LO", "HI", "LO", "HI"]);
}

#[test]
fn unlabelled_blocks_are_skipped_by_the_label_pass() {
    // A narrow block carries no label and consumes no formatted text.
    let changes = vec![change(0, "a"), change(1, "b"), change(2, "c")];
    let time_table: Vec<u64> = vec![0, 2, 10];
    let tl = compose_timeline(&changes, &time_table, 1, 20, 0, 12);
    assert_eq!(tl.blocks.len(), 3);
    assert!(tl.blocks[0].label.is_none());
    let texts = label_texts(&tl);
    assert_eq!(texts, vec!["b", "c"]);
    let out = with_label_texts(&tl, vec!["B".to_string(), "C".to_string()]);
    assert!(out.blocks[0].label.is_none());
    assert_eq!(out.blocks[1].label.as_ref().unwrap().text, "B");
    assert_eq!(out.blocks[2].label.as_ref().unwrap().text, "C");
}

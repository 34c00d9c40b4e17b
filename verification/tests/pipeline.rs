use std::cell::RefCell;

use logview::buffer::SourceBuffer;
use logview::engine::{Command, DisplayOp, Engine, Mode};
use logview::error::Error;
use logview::source::{Source, TryRead};

struct Scripted {
    items: RefCell<Vec<String>>,
}

impl Scripted {
    fn new(items: &[&str]) -> Scripted {
        Scripted { items: RefCell::new(items.iter().map(|s| s.to_string()).collect()) }
    }
}

impl TryRead<String> for Scripted {
    fn try_read(&self) -> Option<String> {
        let mut v = self.items.borrow_mut();
        if v.is_empty() {
            None
        } else {
            Some(v.remove(0))
        }
    }
}

fn append_text(op: &DisplayOp) -> String {
    match op {
        DisplayOp::Append(c) => c.spans.iter().map(|sp| sp.text.as_str()).collect(),
        DisplayOp::Reset => panic!("expected an append"),
    }
}

#[test]
fn buffer_wraparound_evicts_oldest() {
    let mut buf = SourceBuffer::new(Source::from(Scripted::new(&[])));
    for i in 0..1025u32 {
        let evicted = buf.push(format!("line{}", i));
        if i < 1024 {
            assert_eq!(evicted, None);
        } else {
            assert_eq!(evicted, Some("line0".to_string()));
        }
    }
    let snapshot = buf.iter();
    assert_eq!(snapshot.len(), 1024);
    assert_eq!(snapshot[0], "line1");
    assert_eq!(snapshot[1023], "line1024");
}

#[test]
fn buffer_exact_capacity_keeps_everything() {
    let mut buf = SourceBuffer::new(Source::from(Scripted::new(&[])));
    for i in 0..1024u32 {
        assert_eq!(buf.push(format!("line{}", i)), None);
    }
    let snapshot = buf.iter();
    assert_eq!(snapshot.len(), 1024);
    assert_eq!(snapshot[0], "line0");
    assert_eq!(snapshot[1023], "line1023");
}

#[test]
fn buffer_update_pulls_from_source() {
    let mut buf = SourceBuffer::new(Source::from(Scripted::new(&["x", "y"])));
    assert_eq!(buf.update(), Some("x".to_string()));
    assert_eq!(buf.iter(), vec!["x".to_string()]);
    assert_eq!(buf.update(), Some("y".to_string()));
    assert_eq!(buf.update(), None);
    assert_eq!(buf.iter(), vec!["x".to_string(), "y".to_string()]);
}

#[test]
fn engine_end_to_end_filter_and_clear() {
    // Source emits "a", "b1", "c", "b2"; the operator filters on "b",
    // then clears the filter.
    let source = Source::from(Scripted::new(&["a", "b1", "c", "b2"]));
    let mut engine = Engine::new(source, Mode::SkipColorCheck);
    let mut appended: Vec<String> = Vec::new();
    loop {
        let (line, ops) = engine.poll();
        if line.is_none() {
            assert!(ops.is_empty());
            break;
        }
        for op in &ops {
            appended.push(append_text(op));
        }
    }
    assert_eq!(appended, vec!["a", "b1", "c", "b2"]);

    let (ops, err) = engine.apply_command(Command::SetFilter("b".to_string()));
    assert!(err.is_none());
    assert!(matches!(ops[0], DisplayOp::Reset));
    let replayed: Vec<String> = ops[1..].iter().map(append_text).collect();
    assert_eq!(replayed, vec!["b1", "b2"]);

    let (ops, err) = engine.apply_command(Command::ClearFilter);
    assert!(err.is_none());
    assert!(matches!(ops[0], DisplayOp::Reset));
    let replayed: Vec<String> = ops[1..].iter().map(append_text).collect();
    assert_eq!(replayed, vec!["a", "b1", "c", "b2"]);
}

#[test]
fn engine_invalid_filter_changes_nothing() {
    let source = Source::from(Scripted::new(&["a", "b"]));
    let mut engine = Engine::new(source, Mode::SkipColorCheck);
    let (ops, err) = engine.apply_command(Command::SetFilter("(".to_string()));
    assert!(ops.is_empty(), "no reset and no replay on a bad pattern");
    let message = err.expect("a bad pattern must surface an error");
    assert!(!message.is_empty());
    // The engine keeps running unfiltered: both lines are still dispatched.
    let (line, ops) = engine.poll();
    assert_eq!(line, Some("a".to_string()));
    assert_eq!(ops.len(), 1);
    assert_eq!(append_text(&ops[0]), "a");
}

#[test]
fn engine_replay_is_deterministic() {
    let source = Source::from(Scripted::new(&["a", "b1", "c", "b2"]));
    let mut engine = Engine::new(source, Mode::SkipColorCheck);
    loop {
        let (line, _) = engine.poll();
        if line.is_none() {
            break;
        }
    }
    let (first, _) = engine.apply_command(Command::SetFilter("b".to_string()));
    let (second, _) = engine.apply_command(Command::SetFilter("b".to_string()));
    let (third, _) = engine.apply_command(Command::SetFilter("b".to_string()));
    assert_eq!(first, second);
    assert_eq!(second, third);
}

#[test]
fn engine_filter_matches_somewhere_in_line() {
    let source = Source::from(Scripted::new(&["b", "bb", "xbx", "nope"]));
    let mut engine = Engine::new(source, Mode::SkipColorCheck);
    loop {
        let (line, _) = engine.poll();
        if line.is_none() {
            break;
        }
    }
    let (ops, err) = engine.apply_command(Command::SetFilter("^b+$".to_string()));
    assert!(err.is_none());
    let replayed: Vec<String> = ops[1..].iter().map(append_text).collect();
    assert_eq!(replayed, vec!["b", "bb"]);
}

#[test]
fn engine_display_counter_bound() {
    // 2049 consecutively dispatched lines with no filter change: a reset
    // is issued before the 2049th append.
    let mut flat: Vec<&'static str> = Vec::new();
    for _ in 0..2049u32 {
        flat.push("line");
    }
    let source = Source::from(Scripted::new(&flat));
    let mut engine = Engine::new(source, Mode::SkipColorCheck);
    let mut all_ops: Vec<DisplayOp> = Vec::new();
    loop {
        let (line, mut ops) = engine.poll();
        if line.is_none() {
            break;
        }
        all_ops.append(&mut ops);
    }
    let appends_before_reset = all_ops
        .iter()
        .take_while(|op| matches!(op, DisplayOp::Append(_)))
        .count();
    assert_eq!(appends_before_reset, 2048);
    assert!(matches!(all_ops[2048], DisplayOp::Reset));
    assert!(matches!(all_ops[2049], DisplayOp::Append(_)));
    assert_eq!(all_ops.len(), 2050);
}

#[test]
fn engine_plain_mode_strips_markup_on_dispatch() {
    let source = Source::from(Scripted::new(&["a\u{1b}[31mred\u{1b}[mz"]));
    let mut engine = Engine::new(source, Mode::RemoveColors);
    let (line, ops) = engine.poll();
    assert_eq!(line, Some("a\u{1b}[31mred\u{1b}[mz".to_string()));
    assert_eq!(append_text(&ops[0]), "aredz");
}

#[test]
fn history_moves_resubmitted_entry_to_end() {
    let mut h = logview::history::History::new();
    h.submit("a".to_string());
    h.submit("b".to_string());
    h.submit("a".to_string());
    assert_eq!(h.entries(), &vec!["b".to_string(), "a".to_string()]);
}

#[test]
fn history_is_bounded_and_evicts_oldest() {
    let mut h = logview::history::History::new();
    for i in 0..51u32 {
        h.submit(format!("f{}", i));
    }
    let entries = h.entries();
    assert_eq!(entries.len(), 50);
    assert_eq!(entries[0], "f1");
    assert_eq!(entries[49], "f50");
}

#[test]
fn history_resubmit_at_capacity_keeps_length() {
    let mut h = logview::history::History::new();
    for i in 0..50u32 {
        h.submit(format!("f{}", i));
    }
    h.submit("f0".to_string());
    let entries = h.entries();
    assert_eq!(entries.len(), 50);
    assert_eq!(entries[0], "f1");
    assert_eq!(entries[49], "f0");
}

#[test]
fn error_messages() {
    assert_eq!(
        Error::NoPipeIn.message(),
        "Failed to initialze input pipe. Did you forget to pipe something?"
    );
    assert_eq!(
        Error::FileOpenFailed("log.txt".to_string()).message(),
        "Failed to initialze input file 'log.txt'. Does the file exist?"
    );
    assert_eq!(
        Error::CustomThemeFailed("theme.toml".to_string()).message(),
        "Couldn't load custom theme from 'theme.toml'."
    );
}

use typst_lt::coordinator::process_chunk;
use typst_lt::mapper::{DiagnosticEntry, MapError, Match, output_diagnostics};
use typst_lt::position::Position;

fn mk_match(offset: usize, length: usize, message: &str, replacements: &[&str]) -> Match {
    Match {
        offset,
        length,
        message: message.to_string(),
        rule_id: "RULE".to_string(),
        rule_description: "a rule".to_string(),
        replacements: replacements.iter().map(|r| r.to_string()).collect(),
        urls: Vec::new(),
    }
}

#[test]
fn example_two_matches() {
    let text = "Helo world.\nThis are bad.";
    assert_eq!(text.chars().count(), 25);
    let mut pos = Position::new(text);
    let matches = vec![
        mk_match(0, 4, "Spelling", &["Hello"]),
        mk_match(17, 3, "Grammar", &["is"]),
    ];
    let entries = output_diagnostics(&mut pos, &matches, 25).unwrap();
    assert_eq!(entries.len(), 2);

    let first = &entries[0];
    assert_eq!(first.diagnostic.range.start.line, 1);
    assert_eq!(first.diagnostic.range.start.column, 1);
    assert_eq!(first.diagnostic.range.end.line, 1);
    assert_eq!(first.diagnostic.range.end.column, 5);
    assert_eq!(first.diagnostic.message, "Spelling");
    assert_eq!(first.actions.len(), 1);
    assert_eq!(first.actions[0].title, "Replace with 'Hello'");
    assert_eq!(first.actions[0].new_text, "Hello");
    assert_eq!(first.actions[0].range, first.diagnostic.range);

    let second = &entries[1];
    assert_eq!(second.diagnostic.range.start.line, 2);
    assert_eq!(second.diagnostic.range.start.column, 6);
    assert_eq!(second.diagnostic.range.end.line, 2);
    assert_eq!(second.diagnostic.range.end.column, 9);
    assert_eq!(second.diagnostic.message, "Grammar");
    assert_eq!(second.actions.len(), 1);
    assert_eq!(second.actions[0].title, "Replace with 'is'");
    assert_eq!(second.actions[0].new_text, "is");

    // The whole chunk was consumed: the cursor sits at the end of the text.
    assert_eq!(pos.line, 2);
    assert_eq!(pos.column, 14);
}

#[test]
fn no_matches_consumes_whole_chunk() {
    let mut pos = Position::new("one\ntwo\nthree");
    let entries = output_diagnostics(&mut pos, &Vec::new(), 13).unwrap();
    assert!(entries.is_empty());
    assert_eq!(pos.line, 3);
    assert_eq!(pos.column, 6);
}

#[test]
fn out_of_order_matches_rejected() {
    let mut pos = Position::new("some text here");
    let matches = vec![mk_match(5, 4, "first", &[]), mk_match(7, 2, "second", &[])];
    let r = output_diagnostics(&mut pos, &matches, 14);
    assert_eq!(r.err().unwrap(), MapError::OutOfOrder);
}

#[test]
fn overlapping_matches_rejected() {
    let mut pos = Position::new("some text here");
    // The second match starts inside the first one.
    let matches = vec![mk_match(0, 6, "first", &[]), mk_match(3, 2, "second", &[])];
    let r = output_diagnostics(&mut pos, &matches, 14);
    assert_eq!(r.err().unwrap(), MapError::OutOfOrder);
}

#[test]
fn overrunning_match_rejected() {
    let mut pos = Position::new("short");
    let matches = vec![mk_match(3, 4, "too long", &[])];
    let r = output_diagnostics(&mut pos, &matches, 5);
    assert_eq!(r.err().unwrap(), MapError::Overrun);
}

#[test]
fn adjacent_matches_accepted() {
    let mut pos = Position::new("abcdef");
    let matches = vec![mk_match(0, 3, "left", &[]), mk_match(3, 3, "right", &[])];
    let entries = output_diagnostics(&mut pos, &matches, 6).unwrap();
    assert_eq!(entries.len(), 2);
    assert_eq!(entries[0].diagnostic.range.end.column, 4);
    assert_eq!(entries[1].diagnostic.range.start.column, 4);
    assert_eq!(entries[1].diagnostic.range.end.column, 7);
}

#[test]
fn one_action_per_replacement() {
    let mut pos = Position::new("teh cat");
    let matches = vec![mk_match(0, 3, "Spelling", &["the", "ten", "tea"])];
    let entries = output_diagnostics(&mut pos, &matches, 7).unwrap();
    assert_eq!(entries[0].actions.len(), 3);
    assert_eq!(entries[0].actions[0].title, "Replace with 'the'");
    assert_eq!(entries[0].actions[1].title, "Replace with 'ten'");
    assert_eq!(entries[0].actions[2].title, "Replace with 'tea'");
}

#[test]
fn chunk_boundary_continuity() {
    // Processing two adjacent chunks leaves the cursor exactly where
    // processing their concatenation as one chunk does, for any split.
    let text = "alpha\nbeta gamma\ndelta";
    let n = text.chars().count();
    for split in 0..=n {
        let mut two = Position::new(text);
        assert!(process_chunk(&mut two, None, split).is_ok());
        assert!(process_chunk(&mut two, None, n - split).is_ok());
        let mut one = Position::new(text);
        assert!(process_chunk(&mut one, None, n).is_ok());
        assert_eq!(two.line, one.line);
        assert_eq!(two.column, one.column);
    }
}

#[test]
fn failure_isolation() {
    // A service failure on the first chunk must hand the second chunk the
    // same start position as a successful first chunk.
    let text = "Helo world.\nThis are bad.";
    let matches = vec![mk_match(0, 4, "Spelling", &["Hello"])];

    let mut failed = Position::new(text);
    assert_eq!(process_chunk(&mut failed, None, 12).unwrap().len(), 0);

    let mut succeeded = Position::new(text);
    let ok: Vec<DiagnosticEntry> =
        process_chunk(&mut succeeded, Some(&matches), 12).unwrap();
    assert_eq!(ok.len(), 1);

    assert_eq!(failed.line, succeeded.line);
    assert_eq!(failed.column, succeeded.column);

    // The second chunk then maps identically in both passes.
    let tail = vec![mk_match(5, 3, "Grammar", &["is"])];
    let a = process_chunk(&mut failed, Some(&tail), 13).unwrap();
    let b = process_chunk(&mut succeeded, Some(&tail), 13).unwrap();
    assert_eq!(a[0].diagnostic.range, b[0].diagnostic.range);
    assert_eq!(a[0].diagnostic.range.start.line, 2);
    assert_eq!(a[0].diagnostic.range.start.column, 6);
}

#[test]
fn protocol_violation_on_received_response() {
    // A violating response is an error even through the coordinator.
    let mut pos = Position::new("abcdef");
    let bad = vec![mk_match(4, 1, "late", &[]), mk_match(0, 1, "early", &[])];
    let r = process_chunk(&mut pos, Some(&bad), 6);
    assert_eq!(r.err().unwrap(), MapError::OutOfOrder);
}

#[test]
fn position_tracks_lines_and_columns() {
    let mut pos = Position::new("ab\ncd\n\nef");
    assert_eq!((pos.line, pos.column), (1, 1));
    pos.advance(2);
    assert_eq!((pos.line, pos.column), (1, 3));
    pos.advance(1); // the newline itself
    assert_eq!((pos.line, pos.column), (2, 1));
    pos.advance(3); // "cd\n"
    assert_eq!((pos.line, pos.column), (3, 1));
    pos.advance(1); // the empty line's newline
    assert_eq!((pos.line, pos.column), (4, 1));
    pos.advance(2);
    assert_eq!((pos.line, pos.column), (4, 3));
}

#[test]
fn position_clone_is_independent() {
    let mut pos = Position::new("one\ntwo");
    pos.advance(2);
    let mut copy = pos.clone();
    copy.advance(3);
    assert_eq!((pos.line, pos.column), (1, 3));
    assert_eq!((copy.line, copy.column), (2, 2));
}

#[test]
fn line_never_decreases() {
    let text = "a\nb\nc\nd";
    let mut pos = Position::new(text);
    let mut last_line = pos.line;
    for _ in 0..text.chars().count() {
        pos.advance(1);
        assert!(pos.line >= last_line);
        last_line = pos.line;
    }
}

//! One whole document pass through the library: segment a document tree,
//! feed each chunk's (simulated) checker outcome to the coordinator in
//! document order, store the result, and query it.

use typst_lt::coordinator::process_chunk;
use typst_lt::mapper::{DiagnosticEntry, LineCol, Match};
use typst_lt::position::Position;
use typst_lt::segment::{segment, Node, NodeKind, Rules};
use typst_lt::store::DiagnosticsStore;

#[test]
fn segment_map_store_and_query() {
    // "Helo world.\nThis are bad." parsed into prose and markup spans.
    let tree = Node {
        kind: NodeKind::Other,
        text: String::new(),
        children: vec![
            Node {
                kind: NodeKind::Text,
                text: "Helo world.".to_string(),
                children: Vec::new(),
            },
            Node {
                kind: NodeKind::Parbreak,
                text: "\n".to_string(),
                children: Vec::new(),
            },
            Node {
                kind: NodeKind::Text,
                text: "This are bad.".to_string(),
                children: Vec::new(),
            },
        ],
    };
    let text = "Helo world.\nThis are bad.";
    let rules = Rules::new();

    // A budget of 12 splits the document after the paragraph break.
    let chunks = segment(&tree, &rules, 12);
    let lengths: Vec<usize> = chunks.iter().map(|c| c.total_length).collect();
    assert_eq!(lengths, vec![12, 13]);

    // The checker finds one spelling error in the first chunk and one
    // grammar error in the second.
    let outcomes: Vec<Option<Vec<Match>>> = vec![
        Some(vec![Match {
            offset: 0,
            length: 4,
            message: "Spelling".to_string(),
            rule_id: "SPELL".to_string(),
            rule_description: "spelling".to_string(),
            replacements: vec!["Hello".to_string()],
            urls: Vec::new(),
        }]),
        Some(vec![Match {
            offset: 5,
            length: 3,
            message: "Grammar".to_string(),
            rule_id: "AGREE".to_string(),
            rule_description: "agreement".to_string(),
            replacements: vec!["is".to_string()],
            urls: Vec::new(),
        }]),
    ];

    let mut position = Position::new(text);
    let mut entries: Vec<DiagnosticEntry> = Vec::new();
    for (chunk, outcome) in chunks.iter().zip(outcomes.iter()) {
        let produced =
            process_chunk(&mut position, outcome.as_ref(), chunk.total_length).unwrap();
        entries.extend(produced);
    }

    // The cursor consumed the whole document.
    assert_eq!((position.line, position.column), (2, 14));

    assert_eq!(entries.len(), 2);
    assert_eq!(entries[0].diagnostic.range.start, LineCol { line: 1, column: 1 });
    assert_eq!(entries[0].diagnostic.range.end, LineCol { line: 1, column: 5 });
    assert_eq!(entries[1].diagnostic.range.start, LineCol { line: 2, column: 6 });
    assert_eq!(entries[1].diagnostic.range.end, LineCol { line: 2, column: 9 });

    let mut store = DiagnosticsStore::new();
    store.put(42, entries);
    assert_eq!(store.all(42).unwrap().len(), 2);

    let fixes = store.actions_covering(42, LineCol { line: 2, column: 7 });
    assert_eq!(fixes.len(), 1);
    assert_eq!(fixes[0].title, "Replace with 'is'");
    assert_eq!(fixes[0].new_text, "is");

    // A later pass with no findings replaces the entry in full.
    store.put(42, Vec::new());
    assert!(store.all(42).unwrap().is_empty());
    assert!(store.actions_covering(42, LineCol { line: 2, column: 7 }).is_empty());
}

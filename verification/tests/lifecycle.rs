use std::cell::Cell;
use std::rc::Rc;

use fts_mecab_rs::analysis::Analysis;
use fts_mecab_rs::context::{create, create_status, delete, TokenizerContext};
use fts_mecab_rs::node::{MorphNode, NodeStat};
use fts_mecab_rs::span::TokenSpan;
use fts_mecab_rs::status::{check, SQLITE_ERROR, SQLITE_OK};
use fts_mecab_rs::tokenize::tokenize;

/// Counts how many analyzers were built and how many were released.
#[derive(Default)]
struct Ledger {
    built: Cell<usize>,
    released: Cell<usize>,
}

/// Stands for an analyzer. It cuts the input into pieces of `width` bytes.
struct FakeAnalyzer {
    width: usize,
    ledger: Rc<Ledger>,
}

impl FakeAnalyzer {
    /// Builds an analyzer from its arguments, as the real one does. The one
    /// argument is the width; anything else fails.
    fn build(args: &[&str], ledger: &Rc<Ledger>) -> Option<FakeAnalyzer> {
        let width: usize = match args {
            [w] => w.parse().ok()?,
            _ => return None,
        };
        if width == 0 {
            return None;
        }
        ledger.built.set(ledger.built.get() + 1);
        Some(FakeAnalyzer { width, ledger: Rc::clone(ledger) })
    }

    fn parse(&self, input: &[u8]) -> Analysis {
        let mut nodes = vec![bos()];
        for piece in input.chunks(self.width) {
            nodes.push(MorphNode {
                stat: NodeStat::NOR,
                surface: piece.to_vec(),
                length: piece.len() as u16,
                feature: String::new(),
            });
        }
        nodes.push(eos());
        match Analysis::new(nodes) {
            Some(a) => a,
            None => panic!("the nodes are walkable"),
        }
    }
}

impl Drop for FakeAnalyzer {
    fn drop(&mut self) {
        self.ledger.released.set(self.ledger.released.get() + 1);
    }
}

fn bos() -> MorphNode {
    MorphNode { stat: NodeStat::BOS, surface: Vec::new(), length: 0, feature: String::new() }
}

fn eos() -> MorphNode {
    MorphNode { stat: NodeStat::EOS, surface: Vec::new(), length: 0, feature: String::new() }
}

fn offsets_through(context: &TokenizerContext<FakeAnalyzer>, input: &[u8]) -> Vec<(i32, i32)> {
    let analysis = context.analyzer().parse(input);
    let seen = std::cell::RefCell::new(Vec::new());
    let outcome = tokenize(Some(&analysis), |span: &TokenSpan| {
        seen.borrow_mut().push((span.start, span.end));
        SQLITE_OK
    });
    assert_eq!(outcome.status, SQLITE_OK);
    seen.into_inner()
}

#[test]
fn check_tells_a_result_from_its_absence() {
    assert_eq!(check(Some(7u32), String::from("unused")), Ok(7u32));
    assert_eq!(
        check::<u32>(None, String::from("no such dictionary")),
        Err(String::from("no such dictionary"))
    );
    assert_eq!(check(Some(()), String::new()), Ok(()));
    assert_eq!(check::<()>(None, String::new()), Err(String::new()));
}

#[test]
fn create_fails_at_once_when_no_analyzer_was_built() {
    let ledger = Rc::new(Ledger::default());
    let built = FakeAnalyzer::build(&["not a width"], &ledger);
    assert!(built.is_none());
    let created = create(built, String::from("unrecognized option"));
    assert_eq!(create_status(&created), SQLITE_ERROR);
    match created {
        Ok(_) => panic!("no analyzer was built"),
        Err(text) => assert_eq!(text, "unrecognized option"),
    }
    assert_eq!(ledger.built.get(), 0);
    assert_eq!(ledger.released.get(), 0);
}

#[test]
fn create_hands_the_analyzer_to_the_context() {
    let ledger = Rc::new(Ledger::default());
    let created = create(FakeAnalyzer::build(&["3"], &ledger), String::from("unused"));
    assert_eq!(create_status(&created), SQLITE_OK);
    let context = match created {
        Ok(context) => context,
        Err(text) => panic!("an analyzer was built: {}", text),
    };
    assert_eq!(context.analyzer().width, 3);
    assert_eq!(ledger.released.get(), 0);
    let analyzer = delete(context);
    assert_eq!(analyzer.width, 3);
    assert_eq!(ledger.released.get(), 0);
    drop(analyzer);
    assert_eq!(ledger.released.get(), 1);
}

#[test]
fn every_analyzer_that_was_built_is_released_once() {
    let ledger = Rc::new(Ledger::default());
    let mut contexts = Vec::new();
    for width in ["1", "2", "0", "5", "x", "8"] {
        let built = FakeAnalyzer::build(&[width], &ledger);
        if let Ok(context) = create(built, String::from("bad width")) {
            contexts.push(context);
        }
    }
    assert_eq!(contexts.len(), 4);
    assert_eq!(ledger.built.get(), 4);
    assert_eq!(ledger.released.get(), 0);
    let mut expected_released = 0;
    for context in contexts {
        drop(delete(context));
        expected_released += 1;
        assert_eq!(ledger.released.get(), expected_released);
    }
    assert_eq!(ledger.released.get(), ledger.built.get());
}

#[test]
fn two_contexts_follow_their_own_configuration() {
    let ledger = Rc::new(Ledger::default());
    let narrow = match create(FakeAnalyzer::build(&["2"], &ledger), String::new()) {
        Ok(context) => context,
        Err(text) => panic!("an analyzer was built: {}", text),
    };
    let wide = match create(FakeAnalyzer::build(&["4"], &ledger), String::new()) {
        Ok(context) => context,
        Err(text) => panic!("an analyzer was built: {}", text),
    };
    let input = b"abcdefgh";
    let by_two = vec![(0, 2), (2, 4), (4, 6), (6, 8)];
    let by_four = vec![(0, 4), (4, 8)];
    assert_eq!(offsets_through(&narrow, input), by_two);
    assert_eq!(offsets_through(&wide, input), by_four);
    // Using one context leaves the other as it was, in either order.
    assert_eq!(offsets_through(&wide, input), by_four);
    assert_eq!(offsets_through(&narrow, input), by_two);
    drop(delete(narrow));
    assert_eq!(offsets_through(&wide, input), by_four);
    drop(delete(wide));
    assert_eq!(ledger.built.get(), 2);
    assert_eq!(ledger.released.get(), 2);
}

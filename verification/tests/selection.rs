use fw2tar::selection::{best_extractor, best_result, BestExtractor, ExtractionSummary};

fn summary(index: usize, extractor: &'static str, file_node_count: usize) -> ExtractionSummary {
    ExtractionSummary { index, extractor, file_node_count }
}

fn describe(choice: BestExtractor) -> String {
    match choice {
        BestExtractor::Best(name) => format!("best {name}"),
        BestExtractor::Only(name) => format!("only {name}"),
        BestExtractor::Identical(name) => format!("identical {name}"),
        BestExtractor::NoResult => "none".to_string(),
    }
}

#[test]
fn no_primary_result() {
    assert_eq!(best_result(&vec![]), None);
    assert_eq!(describe(best_extractor(&vec![])), "none");
    let results = vec![summary(1, "unblob", 500), summary(2, "binwalk", 900)];
    assert_eq!(best_result(&results), None);
    assert_eq!(describe(best_extractor(&results)), "none");
}

#[test]
fn single_primary_result() {
    let results = vec![summary(1, "unblob", 5000), summary(0, "binwalk", 10), summary(1, "binwalk", 900)];
    assert_eq!(best_result(&results), Some(1));
    assert_eq!(describe(best_extractor(&results)), "only binwalk");
}

#[test]
fn most_file_nodes_wins() {
    let results = vec![summary(0, "unblob", 100), summary(0, "binwalk", 250), summary(1, "native", 900)];
    assert_eq!(best_result(&results), Some(1));
    assert_eq!(describe(best_extractor(&results)), "best binwalk");
}

#[test]
fn unblob_wins_ties() {
    let results = vec![summary(0, "binwalk", 250), summary(0, "unblob", 250)];
    assert_eq!(best_result(&results), Some(1));
    assert_eq!(describe(best_extractor(&results)), "best unblob");
}

#[test]
fn earliest_wins_full_ties() {
    let results = vec![summary(0, "binwalk", 250), summary(0, "native", 250), summary(0, "native", 10)];
    assert_eq!(best_result(&results), Some(0));
    assert_eq!(describe(best_extractor(&results)), "best binwalk");
    let results = vec![summary(0, "unblob", 7), summary(0, "unblob", 7)];
    assert_eq!(best_result(&results), Some(0));
}

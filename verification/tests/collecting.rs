use kvmesh::consensus::ConsensusCollector;

const NO_CONSENSUS: &str = "Error: No consensus reached among nodes";

fn collector(required: usize) -> ConsensusCollector {
    ConsensusCollector::new(required, "t-Get".to_string(), "127.0.0.1:9".to_string(), 7)
}

fn add(c: &mut ConsensusCollector, server: &str, response: &str) -> Option<String> {
    c.add_response(server.to_string(), response.to_string())
}

#[test]
fn new_collector_is_empty() {
    let c = collector(3);
    assert_eq!(c.required_count(), 3);
    assert_eq!(c.response_count(), 0);
    assert_eq!(c.command_id(), "t-Get");
    assert_eq!(c.client_addr(), "127.0.0.1:9");
}

#[test]
fn unanimous_answers_decide_once_all_are_there() {
    let mut c = collector(3);
    assert_eq!(add(&mut c, "self", "x"), None);
    assert_eq!(add(&mut c, "a", "x"), None);
    assert_eq!(add(&mut c, "b", "x"), Some("x".to_string()));
}

#[test]
fn majority_decides() {
    let mut c = collector(3);
    assert_eq!(add(&mut c, "self", "x"), None);
    assert_eq!(add(&mut c, "a", "y"), None);
    assert_eq!(add(&mut c, "b", "y"), Some("y".to_string()));
}

#[test]
fn half_is_no_majority() {
    let mut c = collector(4);
    add(&mut c, "self", "x");
    add(&mut c, "a", "y");
    add(&mut c, "b", "y");
    assert_eq!(add(&mut c, "c", "x"), Some(NO_CONSENSUS.to_string()));
    let mut c = collector(2);
    add(&mut c, "self", "x");
    assert_eq!(add(&mut c, "a", "y"), Some(NO_CONSENSUS.to_string()));
}

#[test]
fn plurality_is_no_majority() {
    let mut c = collector(5);
    add(&mut c, "self", "x");
    add(&mut c, "a", "x");
    add(&mut c, "b", "y");
    add(&mut c, "c", "z");
    assert_eq!(add(&mut c, "d", "w"), Some(NO_CONSENSUS.to_string()));
}

#[test]
fn server_that_answers_twice_counts_once() {
    let mut c = collector(2);
    assert_eq!(add(&mut c, "a", "x"), None);
    assert_eq!(add(&mut c, "a", "y"), None);
    assert_eq!(c.response_count(), 1);
    assert_eq!(add(&mut c, "b", "y"), Some("y".to_string()));
}

#[test]
fn one_required_answer_decides_alone() {
    let mut c = collector(1);
    assert_eq!(add(&mut c, "a", "x"), Some("x".to_string()));
    let mut c = collector(0);
    assert_eq!(add(&mut c, "a", "x"), Some("x".to_string()));
}

#[test]
fn more_answers_than_required_still_need_the_most_votes() {
    let mut c = collector(2);
    add(&mut c, "a", "x");
    assert_eq!(add(&mut c, "b", "y"), Some(NO_CONSENSUS.to_string()));
    assert_eq!(add(&mut c, "c", "y"), Some("y".to_string()));
    let tied = add(&mut c, "d", "x").unwrap();
    assert!(tied == "x" || tied == "y");
    assert_eq!(add(&mut c, "e", "x"), Some("x".to_string()));
}

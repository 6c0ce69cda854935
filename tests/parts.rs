use voting::{Voting, VotingOptions, VotingResults};

fn poll(id: &str) -> VotingOptions {
    VotingOptions {
        creator: "alice".to_string(),
        poll_id: id.to_string(),
        question: "q".to_string(),
        variants: vec![],
    }
}

fn results(id: &str, variants: Vec<(&str, usize)>, voted: Vec<&str>) -> VotingResults {
    VotingResults {
        poll_id: id.to_string(),
        variants: variants.into_iter().map(|(k, c)| (k.to_string(), c)).collect(),
        voted: voted.into_iter().map(|v| v.to_string()).collect(),
    }
}

#[test]
fn parts_round_trip() {
    let mut store = Voting::default();
    let pid = store.create_poll("a".to_string(), &vec![5], "q".to_string(), vec![]);
    assert!(store.vote("bob".to_string(), pid.clone(), vec![("v1".to_string(), 1)]));
    let (polls, res) = store.into_parts();
    let mut again = Voting::from_parts(polls, res).unwrap();
    assert_eq!("q", again.show_poll(pid.clone()).unwrap().question);
    assert!(!again.vote("bob".to_string(), pid.clone(), vec![]));
    assert!(again.vote("cy".to_string(), pid.clone(), vec![("v1".to_string(), 1)]));
    let stats = again.show_results(pid).unwrap();
    assert_eq!(vec![("v1".to_string(), 2)], stats.results.variants);
}

#[test]
fn parts_accept_consistent_state() {
    let store = Voting::from_parts(
        vec![poll("p1"), poll("p2")],
        vec![results("p1", vec![("a", 1)], vec!["x"]), results("p2", vec![], vec![])],
    );
    let store = store.unwrap();
    assert!(store.show_results("p1".to_string()).is_some());
    assert!(store.show_results("p2".to_string()).is_some());
}

#[test]
fn parts_refuse_length_mismatch() {
    assert!(Voting::from_parts(vec![poll("p1")], vec![]).is_none());
}

#[test]
fn parts_refuse_mismatched_ids() {
    assert!(Voting::from_parts(vec![poll("p1")], vec![results("p2", vec![], vec![])]).is_none());
}

#[test]
fn parts_refuse_duplicate_poll_ids() {
    let r = Voting::from_parts(
        vec![poll("p1"), poll("p1")],
        vec![results("p1", vec![], vec![]), results("p1", vec![], vec![])],
    );
    assert!(r.is_none());
}

#[test]
fn parts_refuse_duplicate_option_ids() {
    let r = Voting::from_parts(
        vec![poll("p1")],
        vec![results("p1", vec![("a", 1), ("a", 1)], vec!["x"])],
    );
    assert!(r.is_none());
}

#[test]
fn parts_refuse_duplicate_voters() {
    let r = Voting::from_parts(vec![poll("p1")], vec![results("p1", vec![], vec!["x", "x"])]);
    assert!(r.is_none());
}

#[test]
fn parts_refuse_count_above_voters() {
    let r = Voting::from_parts(vec![poll("p1")], vec![results("p1", vec![("a", 2)], vec!["x"])]);
    assert!(r.is_none());
}

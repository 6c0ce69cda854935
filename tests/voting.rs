use voting::{Voting, VotingStats};

const DIGEST: [u8; 8] = [0x04, 0x30, 0x5e, 0x2b, 0x24, 0x73, 0xf0, 0x58];

fn options() -> Vec<(String, String)> {
    vec![
        ("v1".to_string(), "To be".to_string()),
        ("v2".to_string(), "Not to be".to_string()),
    ]
}

fn ballot(entries: &[(&str, i32)]) -> Vec<(String, i32)> {
    entries.iter().map(|(k, f)| (k.to_string(), *f)).collect()
}

fn tally(stats: &VotingStats) -> Vec<(String, usize)> {
    stats.results.variants.clone()
}

#[test]
fn nonexisting_poll() {
    let contract = Voting::default();
    let options = contract.show_poll("default".to_string());
    assert_eq!(true, options.is_none());
}

#[test]
fn create_poll() {
    let mut contract = Voting::default();
    let poll = contract.create_poll(
        "bob_near".to_string(),
        &vec![0, 1, 2],
        "To be or not to be?".to_string(),
        options(),
    );
    let options = contract.show_poll(poll);
    assert_eq!(false, options.is_none());
    assert_eq!("To be or not to be?".to_string(), options.unwrap().question);
}

#[test]
fn poll_id_is_base58_of_digest() {
    let mut contract = Voting::default();
    let poll = contract.create_poll("bob".to_string(), &DIGEST.to_vec(), "q".to_string(), vec![]);
    assert_eq!("he11owor1d", poll);
    assert_eq!(poll, contract.show_poll(poll.clone()).unwrap().poll_id);
}

#[test]
fn created_poll_keeps_definition() {
    let mut contract = Voting::default();
    let poll = contract.create_poll(
        "alice".to_string(),
        &DIGEST.to_vec(),
        "To be or not to be?".to_string(),
        options(),
    );
    let def = contract.show_poll(poll.clone()).unwrap();
    assert_eq!("alice", def.creator);
    assert_eq!(2, def.variants.len());
    assert_eq!("v1", def.variants[0].option_id);
    assert_eq!("To be", def.variants[0].message);
    assert_eq!("v2", def.variants[1].option_id);
    assert_eq!("Not to be", def.variants[1].message);
    let stats = contract.show_results(poll.clone()).unwrap();
    assert_eq!(poll, stats.results.poll_id);
    assert!(stats.results.variants.is_empty());
    assert!(stats.results.voted.is_empty());
}

#[test]
fn unknown_poll_is_empty_and_refuses_votes() {
    let mut contract = Voting::default();
    contract.create_poll("alice".to_string(), &vec![1], "q".to_string(), options());
    assert!(contract.show_poll("missing".to_string()).is_none());
    assert!(contract.show_results("missing".to_string()).is_none());
    assert!(!contract.vote("bob".to_string(), "missing".to_string(), ballot(&[("v1", 1)])));
    assert!(contract.show_results("missing".to_string()).is_none());
}

#[test]
fn two_polls_get_distinct_ids() {
    let mut contract = Voting::default();
    let a = contract.create_poll("x".to_string(), &vec![1, 2, 3], "q".to_string(), options());
    let b = contract.create_poll("x".to_string(), &vec![4, 5, 6], "q".to_string(), options());
    assert_ne!(a, b);
    assert!(contract.show_poll(a).is_some());
    assert!(contract.show_poll(b).is_some());
}

#[test]
fn same_id_replaces_poll() {
    let mut contract = Voting::default();
    let a = contract.create_poll("x".to_string(), &vec![9], "first".to_string(), options());
    assert!(contract.vote("bob".to_string(), a.clone(), ballot(&[("v1", 1)])));
    let b = contract.create_poll("y".to_string(), &vec![9], "second".to_string(), vec![]);
    assert_eq!(a, b);
    assert_eq!("second", contract.show_poll(b.clone()).unwrap().question);
    assert!(contract.show_results(b).unwrap().results.voted.is_empty());
}

#[test]
fn voting_scenario() {
    let mut contract = Voting::default();
    let pid = contract.create_poll(
        "alice".to_string(),
        &DIGEST.to_vec(),
        "To be or not to be?".to_string(),
        options(),
    );
    assert_eq!("To be or not to be?", contract.show_poll(pid.clone()).unwrap().question);
    assert!(contract.vote("bob".to_string(), pid.clone(), ballot(&[("v1", 1)])));
    let stats = contract.show_results(pid.clone()).unwrap();
    assert_eq!(vec![("v1".to_string(), 1)], tally(&stats));
    assert!(!contract.vote("bob".to_string(), pid.clone(), ballot(&[("v2", 1)])));
    let stats = contract.show_results(pid.clone()).unwrap();
    assert_eq!(vec![("v1".to_string(), 1)], tally(&stats));
    assert!(contract.vote("carol".to_string(), pid.clone(), ballot(&[("v1", 1), ("v2", 1)])));
    let stats = contract.show_results(pid.clone()).unwrap();
    assert_eq!(vec![("v1".to_string(), 2), ("v2".to_string(), 1)], tally(&stats));
    assert_eq!(vec!["bob".to_string(), "carol".to_string()], stats.results.voted);
}

#[test]
fn zero_flags_are_not_counted_but_voter_is_recorded() {
    let mut contract = Voting::default();
    let pid = contract.create_poll("a".to_string(), &vec![7], "q".to_string(), options());
    assert!(contract.vote("dan".to_string(), pid.clone(), ballot(&[("v1", 0), ("v2", 0)])));
    let stats = contract.show_results(pid.clone()).unwrap();
    assert!(stats.results.variants.is_empty());
    assert_eq!(vec!["dan".to_string()], stats.results.voted);
    assert!(!contract.vote("dan".to_string(), pid.clone(), ballot(&[("v1", 1)])));
    assert!(contract.show_results(pid).unwrap().results.variants.is_empty());
}

#[test]
fn empty_ballot_still_marks_voter() {
    let mut contract = Voting::default();
    let pid = contract.create_poll("a".to_string(), &vec![8], "q".to_string(), vec![]);
    assert!(contract.vote("erin".to_string(), pid.clone(), vec![]));
    assert!(!contract.vote("erin".to_string(), pid, vec![]));
}

#[test]
fn undeclared_option_is_tallied() {
    let mut contract = Voting::default();
    let pid = contract.create_poll("a".to_string(), &vec![3], "q".to_string(), options());
    assert!(contract.vote("fay".to_string(), pid.clone(), ballot(&[("v9", -4)])));
    let stats = contract.show_results(pid).unwrap();
    assert_eq!(vec![("v9".to_string(), 1)], tally(&stats));
}

#[test]
fn votes_on_one_poll_leave_another_alone() {
    let mut contract = Voting::default();
    let a = contract.create_poll("a".to_string(), &vec![1], "qa".to_string(), options());
    let b = contract.create_poll("a".to_string(), &vec![2], "qb".to_string(), options());
    assert!(contract.vote("gus".to_string(), a.clone(), ballot(&[("v2", 1)])));
    assert!(contract.vote("gus".to_string(), b.clone(), ballot(&[("v1", 1)])));
    assert_eq!(vec![("v2".to_string(), 1)], tally(&contract.show_results(a).unwrap()));
    assert_eq!(vec![("v1".to_string(), 1)], tally(&contract.show_results(b).unwrap()));
}

#[test]
fn ping_answers_pong() {
    let mut contract = Voting::default();
    assert_eq!("PONG", contract.ping());
    contract.create_poll("a".to_string(), &vec![1], "q".to_string(), options());
    assert_eq!("PONG", contract.ping());
}

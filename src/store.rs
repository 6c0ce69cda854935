//! The poll store: every poll's definition and results, keyed by poll id,
//! and the operations on them.

use vstd::prelude::*;

use crate::assoc::{
    assoc, find_key, lemma_assoc_dom, lemma_assoc_index, lemma_assoc_push, lemma_assoc_update,
};
use crate::encoding::{base58, base58_of};
use crate::poll::{
    counts_of, keys_of, tally_view, voter_ids, PollView, ResultsView, VotingOption, VotingOptions,
    VotingResults, VotingStats,
};

verus! {

/// What the store holds: for each poll id, its definition and its results.
pub type StoreView = Map<Seq<char>, (PollView, ResultsView)>;

/// The option pairs given at creation, as plain text pairs.
pub open spec fn option_pairs(variants: Seq<(String, String)>) -> Seq<(Seq<char>, Seq<char>)> {
    variants.map_values(|p: (String, String)| (p.0@, p.1@))
}

/// A freshly created poll: the given definition and no votes at all.
pub open spec fn fresh_poll(
    creator: Seq<char>,
    poll_id: Seq<char>,
    question: Seq<char>,
    variants: Seq<(Seq<char>, Seq<char>)>,
) -> (PollView, ResultsView) {
    (
        PollView { creator, poll_id, question, variants },
        ResultsView { poll_id, variants: Map::empty(), voted: Set::empty() },
    )
}

/// The store after `create_poll`: the new poll is filed under its id.
pub open spec fn after_create(
    m: StoreView,
    creator: Seq<char>,
    poll_id: Seq<char>,
    question: Seq<char>,
    variants: Seq<(Seq<char>, Seq<char>)>,
) -> StoreView {
    m.insert(poll_id, fresh_poll(creator, poll_id, question, variants))
}

/// A ballot as plain pairs of option id and flag.
pub open spec fn ballot_view(votes: Seq<(String, i32)>) -> Seq<(Seq<char>, int)> {
    votes.map_values(|p: (String, i32)| (p.0@, p.1 as int))
}

/// The ballot selects option `k`: some entry for `k` has a nonzero flag.
pub open spec fn selected(ballot: Seq<(Seq<char>, int)>, k: Seq<char>) -> bool {
    exists|i: int| 0 <= i < ballot.len() && ballot[i].0 == k && ballot[i].1 != 0
}

/// The count of option `k` in a tally, zero where it has none.
pub open spec fn count_in(t: Map<Seq<char>, nat>, k: Seq<char>) -> nat {
    if t.contains_key(k) {
        t[k]
    } else {
        0
    }
}

/// The tally after one accepted ballot: each selected option gains one vote,
/// every other count stays as it was.
pub open spec fn apply_ballot(t: Map<Seq<char>, nat>, ballot: Seq<(Seq<char>, int)>) -> Map<
    Seq<char>,
    nat,
> {
    Map::new(
        |k: Seq<char>| t.contains_key(k) || selected(ballot, k),
        |k: Seq<char>| count_in(t, k) + if selected(ballot, k) { 1nat } else { 0nat },
    )
}

/// A vote by `voter` on `poll_id` is accepted: the poll exists and the voter
/// has not voted on it yet.
pub open spec fn can_vote(m: StoreView, voter: Seq<char>, poll_id: Seq<char>) -> bool {
    m.contains_key(poll_id) && !m[poll_id].1.voted.contains(voter)
}

/// The store after a vote: an accepted vote records the voter and applies the
/// ballot; a refused one changes nothing.
pub open spec fn after_vote(
    m: StoreView,
    voter: Seq<char>,
    poll_id: Seq<char>,
    ballot: Seq<(Seq<char>, int)>,
) -> StoreView {
    if can_vote(m, voter, poll_id) {
        let (def, res) = m[poll_id];
        m.insert(
            poll_id,
            (
                def,
                ResultsView {
                    poll_id: res.poll_id,
                    variants: apply_ballot(res.variants, ballot),
                    voted: res.voted.insert(voter),
                },
            ),
        )
    } else {
        m
    }
}

/// Extending a ballot prefix by one entry selects that entry's option when
/// its flag is nonzero, and changes nothing else.
pub proof fn lemma_selected_step(ballot: Seq<(Seq<char>, int)>, j: int, k: Seq<char>)
    requires
        0 <= j < ballot.len(),
    ensures
        selected(ballot.take(j + 1), k) == (selected(ballot.take(j), k) || (ballot[j].0 == k
            && ballot[j].1 != 0)),
{
    let longer = ballot.take(j + 1);
    let shorter = ballot.take(j);
    if selected(longer, k) {
        let w = choose|w: int| 0 <= w < longer.len() && #[trigger] longer[w].0 == k && longer[w].1 != 0;
        if w < j {
            assert(shorter[w] == ballot[w]);
        }
    }
    if selected(shorter, k) {
        let w = choose|w: int| 0 <= w < shorter.len() && #[trigger] shorter[w].0 == k && shorter[w].1 != 0;
        assert(longer[w] == ballot[w]);
    }
    if ballot[j].0 == k && ballot[j].1 != 0 {
        assert(ballot.take(j + 1)[j] == ballot[j]);
    }
}

/// The ids of a list of poll definitions.
pub open spec fn poll_keys(polls: Seq<VotingOptions>) -> Seq<Seq<char>> {
    polls.map_values(|p: VotingOptions| p.poll_id@)
}

/// Definitions and results side by side, as abstract pairs.
pub open spec fn entries(polls: Seq<VotingOptions>, results: Seq<VotingResults>) -> Seq<
    (PollView, ResultsView),
> {
    Seq::new(polls.len(), |i: int| (polls[i]@, results[i]@))
}

/// Whether `voter` is among the identities in `voted`.
fn contains_voter(voted: &Vec<String>, voter: &String) -> (r: bool)
    ensures
        r == voter_ids(voted@).contains(voter@),
{
    let mut i: usize = 0;
    while i < voted.len()
        invariant
            i <= voted@.len(),
            forall|j: int| 0 <= j < i ==> voted@[j]@ != voter@,
        decreases voted@.len() - i,
    {
        if voted[i] == *voter {
            assert(voter_ids(voted@)[i as int] == voter@);
            return true;
        }
        i = i + 1;
    }
    false
}

/// Definitions and results that can make up a store: the same poll ids in
/// the same order, each id once, and well-formed results.
pub open spec fn parts_wf(polls: Seq<VotingOptions>, results: Seq<VotingResults>) -> bool {
    &&& polls.len() == results.len()
    &&& poll_keys(polls).no_duplicates()
    &&& forall|i: int| 0 <= i < polls.len() ==> #[trigger] results[i].poll_id@ == polls[i].poll_id@
    &&& forall|i: int| 0 <= i < results.len() ==> #[trigger] results[i].wf()
}

/// The store that definitions and results make up, keyed by poll id.
pub open spec fn parts_view(polls: Seq<VotingOptions>, results: Seq<VotingResults>) -> StoreView {
    assoc(poll_keys(polls), entries(polls, results))
}

/// Whether no text occurs twice in `s`.
fn distinct_texts(s: &Vec<String>) -> (r: bool)
    ensures
        r == voter_ids(s@).no_duplicates(),
{
    let mut i: usize = 0;
    while i < s.len()
        invariant
            i <= s@.len(),
            forall|a: int, b: int|
                0 <= a < i && 0 <= b < s@.len() && a != b ==> s@[a]@ != s@[b]@,
        decreases s@.len() - i,
    {
        let mut j: usize = 0;
        while j < s.len()
            invariant
                i < s@.len(),
                j <= s@.len(),
                forall|a: int, b: int|
                    0 <= a < i && 0 <= b < s@.len() && a != b ==> s@[a]@ != s@[b]@,
                forall|b: int| 0 <= b < j && b != i ==> s@[i as int]@ != s@[b]@,
            decreases s@.len() - j,
        {
            if j != i && s[i] == s[j] {
                assert(voter_ids(s@)[i as int] == voter_ids(s@)[j as int]);
                return false;
            }
            j = j + 1;
        }
        i = i + 1;
    }
    assert forall|a: int, b: int|
        0 <= a < s@.len() && 0 <= b < s@.len() && a != b implies voter_ids(s@)[a] != voter_ids(
        s@,
    )[b] by {
        if a < b {
            assert(s@[a]@ != s@[b]@);
        } else {
            assert(s@[b]@ != s@[a]@);
        }
    }
    true
}

/// Whether a result record is well formed.
fn results_wf(res: &VotingResults) -> (r: bool)
    ensures
        r == res.wf(),
{
    let mut keys: Vec<String> = Vec::new();
    let mut j: usize = 0;
    while j < res.variants.len()
        invariant
            j <= res.variants@.len(),
            voter_ids(keys@) =~= keys_of(res.variants@).take(j as int),
            forall|k: int| 0 <= k < j ==> res.variants@[k].1 <= res.voted@.len(),
        decreases res.variants@.len() - j,
    {
        if res.variants[j].1 > res.voted.len() {
            return false;
        }
        let ghost prev = keys@;
        keys.push(res.variants[j].0.clone());
        proof {
            assert(keys@ =~= prev.push(res.variants@[j as int].0));
            assert(voter_ids(keys@) =~= voter_ids(prev).push(res.variants@[j as int].0@));
            assert(keys_of(res.variants@).take(j + 1) =~= keys_of(res.variants@).take(
                j as int,
            ).push(keys_of(res.variants@)[j as int]));
        }
        j = j + 1;
    }
    assert(keys_of(res.variants@).take(j as int) =~= keys_of(res.variants@));
    distinct_texts(&keys) && distinct_texts(&res.voted)
}

/// All polls: their definitions, and their results at the same positions.
pub struct Voting {
    polls: Vec<VotingOptions>,
    results: Vec<VotingResults>,
}

impl View for Voting {
    type V = StoreView;

    closed spec fn view(&self) -> StoreView {
        parts_view(self.polls@, self.results@)
    }
}

impl Voting {
    /// Both lists have the same poll ids in the same order, each id once, and
    /// each poll's results are well formed.
    pub closed spec fn wf(&self) -> bool {
        parts_wf(self.polls@, self.results@)
    }

    proof fn lemma_view_at(&self, i: int)
        requires
            self.wf(),
            0 <= i < self.polls@.len(),
        ensures
            self@.contains_key(self.polls@[i].poll_id@),
            self@[self.polls@[i].poll_id@] == (self.polls@[i]@, self.results@[i]@),
    {
        lemma_assoc_index(poll_keys(self.polls@), entries(self.polls@, self.results@), i);
    }

    proof fn lemma_view_absent(&self, poll_id: Seq<char>)
        requires
            self.wf(),
            forall|i: int| 0 <= i < self.polls@.len() ==> self.polls@[i].poll_id@ != poll_id,
        ensures
            !self@.contains_key(poll_id),
    {
        lemma_assoc_dom(poll_keys(self.polls@), entries(self.polls@, self.results@), poll_id);
        if poll_keys(self.polls@).contains(poll_id) {
            let i = choose|i: int|
                0 <= i < poll_keys(self.polls@).len() && poll_keys(self.polls@)[i] == poll_id;
            assert(self.polls@[i].poll_id@ == poll_id);
        }
    }

    fn find_poll(&self, poll_id: &String) -> (r: Option<usize>)
        ensures
            match r {
                Some(i) => i < self.polls@.len() && self.polls@[i as int].poll_id@ == poll_id@,
                None => forall|j: int|
                    0 <= j < self.polls@.len() ==> self.polls@[j].poll_id@ != poll_id@,
            },
    {
        let mut i: usize = 0;
        while i < self.polls.len()
            invariant
                i <= self.polls@.len(),
                forall|j: int| 0 <= j < i ==> self.polls@[j].poll_id@ != poll_id@,
            decreases self.polls@.len() - i,
        {
            if self.polls[i].poll_id == *poll_id {
                return Some(i);
            }
            i = i + 1;
        }
        None
    }

    fn find_results(&self, poll_id: &String) -> (r: Option<usize>)
        ensures
            match r {
                Some(i) => i < self.results@.len() && self.results@[i as int].poll_id@
                    == poll_id@,
                None => forall|j: int|
                    0 <= j < self.results@.len() ==> self.results@[j].poll_id@ != poll_id@,
            },
    {
        let mut i: usize = 0;
        while i < self.results.len()
            invariant
                i <= self.results@.len(),
                forall|j: int| 0 <= j < i ==> self.results@[j].poll_id@ != poll_id@,
            decreases self.results@.len() - i,
        {
            if self.results[i].poll_id == *poll_id {
                return Some(i);
            }
            i = i + 1;
        }
        None
    }

    /// Creates a poll with the given question and options, filed under the
    /// Base58 text of `seed_digest` (a hash of fresh random bytes), and
    /// returns that id. `creator` is the identity of the caller. An existing
    /// poll with the same id is replaced.
    pub fn create_poll(
        &mut self,
        creator: String,
        seed_digest: &Vec<u8>,
        question: String,
        variants: Vec<(String, String)>,
    ) -> (poll_id: String)
        requires
            old(self).wf(),
        ensures
            final(self).wf(),
            poll_id@ == base58_of(seed_digest@),
            final(self)@ == after_create(
                old(self)@,
                creator@,
                poll_id@,
                question@,
                option_pairs(variants@),
            ),
    {
        let poll_id = base58(seed_digest);
        let mut options: Vec<VotingOption> = Vec::new();
        let mut j: usize = 0;
        while j < variants.len()
            invariant
                j <= variants@.len(),
                options@.map_values(|o: VotingOption| o@) =~= option_pairs(variants@).take(
                    j as int,
                ),
            decreases variants@.len() - j,
        {
            let option = VotingOption {
                option_id: variants[j].0.clone(),
                message: variants[j].1.clone(),
            };
            let ghost prev = options@;
            options.push(option);
            proof {
                assert(options@ =~= prev.push(option));
                assert(options@.map_values(|o: VotingOption| o@) =~= prev.map_values(
                    |o: VotingOption| o@,
                ).push(option@));
                assert(option_pairs(variants@).take(j + 1) =~= option_pairs(variants@).take(
                    j as int,
                ).push(option_pairs(variants@)[j as int]));
            }
            j = j + 1;
        }
        assert(option_pairs(variants@).take(j as int) =~= option_pairs(variants@));
        let definition = VotingOptions {
            creator,
            poll_id: poll_id.clone(),
            question,
            variants: options,
        };
        let results = VotingResults {
            poll_id: poll_id.clone(),
            variants: Vec::new(),
            voted: Vec::new(),
        };
        proof {
            assert(results@.variants =~= Map::empty());
            assert(results@.voted =~= Set::empty());
            assert(results.wf());
        }
        let ghost fresh = (definition@, results@);
        let ghost keys0 = poll_keys(self.polls@);
        let ghost entries0 = entries(self.polls@, self.results@);
        match self.find_poll(&poll_id) {
            Some(i) => {
                self.polls.set(i, definition);
                self.results.set(i, results);
                proof {
                    assert(poll_keys(self.polls@) =~= keys0);
                    assert(entries(self.polls@, self.results@) =~= entries0.update(i as int, fresh));
                    lemma_assoc_update(keys0, entries0, i as int, fresh);
                }
            },
            None => {
                self.polls.push(definition);
                self.results.push(results);
                proof {
                    assert(poll_keys(self.polls@) =~= keys0.push(poll_id@));
                    assert(entries(self.polls@, self.results@) =~= entries0.push(fresh));
                    lemma_assoc_push(keys0, entries0, poll_id@, fresh);
                }
            },
        }
        poll_id
    }

    /// The definition of the poll filed under `poll_id`, if there is one.
    pub fn show_poll(&self, poll_id: String) -> (r: Option<VotingOptions>)
        requires
            self.wf(),
        ensures
            match r {
                Some(p) => self@.contains_key(poll_id@) && p@ == self@[poll_id@].0,
                None => !self@.contains_key(poll_id@),
            },
    {
        match self.find_poll(&poll_id) {
            Some(i) => {
                proof {
                    self.lemma_view_at(i as int);
                }
                Some(self.polls[i].clone())
            },
            None => {
                proof {
                    self.lemma_view_absent(poll_id@);
                }
                None
            },
        }
    }

    /// The definition and current results of the poll filed under `poll_id`,
    /// if there is one.
    pub fn show_results(&self, poll_id: String) -> (r: Option<VotingStats>)
        requires
            self.wf(),
        ensures
            match r {
                Some(s) => self@.contains_key(poll_id@) && s.poll@ == self@[poll_id@].0
                    && s.results@ == self@[poll_id@].1,
                None => !self@.contains_key(poll_id@),
            },
    {
        match self.find_poll(&poll_id) {
            Some(i) => {
                proof {
                    self.lemma_view_at(i as int);
                }
                match self.find_results(&poll_id) {
                    Some(k) => {
                        proof {
                            self.lemma_view_at(k as int);
                            assert(poll_keys(self.polls@)[i as int] == poll_keys(
                                self.polls@,
                            )[k as int]);
                        }
                        Some(VotingStats { poll: self.polls[i].clone(), results: self.results[k].clone() })
                    },
                    None => {
                        assert(self.results@[i as int].poll_id@ == poll_id@);
                        None
                    },
                }
            },
            None => {
                proof {
                    self.lemma_view_absent(poll_id@);
                }
                None
            },
        }
    }

    /// Records a vote by `voter` on the poll filed under `poll_id`. The
    /// ballot pairs option ids with flags; a nonzero flag selects the option.
    /// When there is no such poll, or the voter has already voted on it, the
    /// vote is refused: the result is false and nothing changes. Otherwise the
    /// voter is recorded, even if the ballot selects nothing, and each
    /// selected option gains one vote, whether or not the poll offers it.
    pub fn vote(&mut self, voter: String, poll_id: String, votes: Vec<(String, i32)>) -> (ok: bool)
        requires
            old(self).wf(),
            keys_of(votes@).no_duplicates(),
        ensures
            final(self).wf(),
            ok == can_vote(old(self)@, voter@, poll_id@),
            final(self)@ == after_vote(old(self)@, voter@, poll_id@, ballot_view(votes@)),
    {
        let i = match self.find_results(&poll_id) {
            Some(i) => i,
            None => {
                proof {
                    assert forall|j: int| 0 <= j < self.polls@.len() implies self.polls@[j].poll_id@
                        != poll_id@ by {
                        assert(self.results@[j].poll_id@ == self.polls@[j].poll_id@);
                    }
                    self.lemma_view_absent(poll_id@);
                }
                return false;
            },
        };
        proof {
            assert(self.results@[i as int].poll_id@ == self.polls@[i as int].poll_id@);
            self.lemma_view_at(i as int);
        }
        if contains_voter(&self.results[i].voted, &voter) {
            return false;
        }
        let ghost old_results = self.results@[i as int];
        let ghost t0 = old_results@.variants;
        let ghost ballot = ballot_view(votes@);
        let ghost n0 = old_results.voted@.len();
        let mut r = self.results[i].clone();
        proof {
            assert(old_results.wf());
            assert forall|k: Seq<char>| t0.contains_key(k) implies t0[k] <= n0 by {
                let ks = keys_of(old_results.variants@);
                let cs = counts_of(old_results.variants@);
                lemma_assoc_dom(ks, cs, k);
                let w = choose|w: int| 0 <= w < ks.len() && ks[w] == k;
                lemma_assoc_index(ks, cs, w);
                assert(old_results.variants@[w].1 <= n0);
            }
            assert(apply_ballot(t0, ballot.take(0)) =~= t0);
        }
        r.voted.push(voter);
        let n = r.voted.len();
        let mut j: usize = 0;
        while j < votes.len()
            invariant
                j <= votes@.len(),
                ballot == ballot_view(votes@),
                keys_of(votes@).no_duplicates(),
                n == n0 + 1,
                r.poll_id@ == old_results.poll_id@,
                r.voted@ == old_results.voted@.push(voter),
                keys_of(r.variants@).no_duplicates(),
                forall|idx: int| 0 <= idx < r.variants@.len() ==> r.variants@[idx].1 <= n,
                forall|k: Seq<char>| t0.contains_key(k) ==> t0[k] <= n0,
                tally_view(r.variants@) == apply_ballot(t0, ballot.take(j as int)),
            decreases votes@.len() - j,
        {
            let ghost before = r.variants@;
            proof {
                assert forall|k: Seq<char>|
                    #![trigger selected(ballot.take(j + 1), k)]
                    selected(ballot.take(j + 1), k) == (selected(ballot.take(j as int), k) || (
                    ballot[j as int].0 == k && ballot[j as int].1 != 0)) by {
                    lemma_selected_step(ballot, j as int, k);
                }
            }
            if votes[j].1 != 0 {
                let key = &votes[j].0;
                proof {
                    if selected(ballot.take(j as int), key@) {
                        let prefix = ballot.take(j as int);
                        let w = choose|w: int|
                            0 <= w < prefix.len() && #[trigger] prefix[w].0 == key@ && prefix[w].1
                                != 0;
                        assert(keys_of(votes@)[w] == keys_of(votes@)[j as int]);
                    }
                }
                match find_key(&r.variants, key) {
                    Some(t) => {
                        proof {
                            lemma_assoc_index(keys_of(before), counts_of(before), t as int);
                        }
                        let c = r.variants[t].1;
                        r.variants.set(t, (key.clone(), c + 1));
                        proof {
                            assert(keys_of(r.variants@) =~= keys_of(before));
                            assert(counts_of(r.variants@) =~= counts_of(before).update(
                                t as int,
                                (c + 1) as nat,
                            ));
                            lemma_assoc_update(
                                keys_of(before),
                                counts_of(before),
                                t as int,
                                (c + 1) as nat,
                            );
                            assert(tally_view(r.variants@) =~= apply_ballot(
                                t0,
                                ballot.take(j + 1),
                            ));
                        }
                    },
                    None => {
                        proof {
                            lemma_assoc_dom(keys_of(before), counts_of(before), key@);
                            if keys_of(before).contains(key@) {
                                let w = choose|w: int|
                                    0 <= w < keys_of(before).len() && keys_of(before)[w] == key@;
                                assert(before[w].0@ == key@);
                            }
                        }
                        r.variants.push((key.clone(), 1));
                        proof {
                            assert(keys_of(r.variants@) =~= keys_of(before).push(key@));
                            assert(counts_of(r.variants@) =~= counts_of(before).push(1nat));
                            lemma_assoc_push(keys_of(before), counts_of(before), key@, 1nat);
                            assert(tally_view(r.variants@) =~= apply_ballot(
                                t0,
                                ballot.take(j + 1),
                            ));
                        }
                    },
                }
            } else {
                proof {
                    assert(apply_ballot(t0, ballot.take(j + 1)) =~= apply_ballot(
                        t0,
                        ballot.take(j as int),
                    ));
                }
            }
            j = j + 1;
        }
        proof {
            assert(ballot.take(j as int) =~= ballot);
            assert(voter_ids(r.voted@) =~= voter_ids(old_results.voted@).push(voter@));
            voter_ids(old_results.voted@).lemma_push_to_set_commute(voter@);
            assert(voter_ids(r.voted@).to_set() =~= voter_ids(old_results.voted@).to_set().insert(
                voter@,
            ));
        }
        let ghost new_entry = (self.polls@[i as int]@, r@);
        let ghost keys0 = poll_keys(self.polls@);
        let ghost entries0 = entries(self.polls@, self.results@);
        self.results.set(i, r);
        proof {
            assert(entries(self.polls@, self.results@) =~= entries0.update(i as int, new_entry));
            lemma_assoc_update(keys0, entries0, i as int, new_entry);
        }
        true
    }

    /// A store made of the given definitions and results, if they fit
    /// together: the same poll ids in the same order, each id once, and
    /// well-formed results. A host loads saved state through this.
    pub fn from_parts(polls: Vec<VotingOptions>, results: Vec<VotingResults>) -> (r: Option<Voting>)
        ensures
            r is Some <==> parts_wf(polls@, results@),
            r matches Some(v) ==> v.wf() && v@ == parts_view(polls@, results@),
    {
        if polls.len() != results.len() {
            return None;
        }
        let mut ids: Vec<String> = Vec::new();
        let mut i: usize = 0;
        while i < polls.len()
            invariant
                i <= polls@.len(),
                polls@.len() == results@.len(),
                voter_ids(ids@) =~= poll_keys(polls@).take(i as int),
                forall|k: int| 0 <= k < i ==> #[trigger] results@[k].poll_id@ == polls@[k].poll_id@,
                forall|k: int| 0 <= k < i ==> #[trigger] results@[k].wf(),
            decreases polls@.len() - i,
        {
            if results[i].poll_id != polls[i].poll_id || !results_wf(&results[i]) {
                return None;
            }
            let ghost prev = ids@;
            ids.push(polls[i].poll_id.clone());
            proof {
                assert(ids@ =~= prev.push(polls@[i as int].poll_id));
                assert(voter_ids(ids@) =~= voter_ids(prev).push(polls@[i as int].poll_id@));
                assert(poll_keys(polls@).take(i + 1) =~= poll_keys(polls@).take(i as int).push(
                    poll_keys(polls@)[i as int],
                ));
            }
            i = i + 1;
        }
        assert(poll_keys(polls@).take(i as int) =~= poll_keys(polls@));
        if !distinct_texts(&ids) {
            return None;
        }
        Some(Voting { polls, results })
    }

    /// The definitions and results this store is made of, in matching order.
    /// A host saves state through this.
    pub fn into_parts(self) -> (r: (Vec<VotingOptions>, Vec<VotingResults>))
        requires
            self.wf(),
        ensures
            parts_wf(r.0@, r.1@),
            parts_view(r.0@, r.1@) == self@,
    {
        (self.polls, self.results)
    }

    /// Liveness probe: always the text `PONG`.
    pub fn ping(&self) -> (r: String)
        ensures
            r@ == "PONG"@,
    {
        String::from_str("PONG")
    }
}

impl Default for Voting {
    fn default() -> (r: Self)
        ensures
            r.wf(),
            r@ == Map::<Seq<char>, (PollView, ResultsView)>::empty(),
    {
        Voting { polls: Vec::new(), results: Vec::new() }
    }
}

} // verus!

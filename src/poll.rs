//! The values a poll is made of: its definition and its running results.

use vstd::prelude::*;

use crate::assoc::assoc;

verus! {

/// One choice offered by a poll.
pub struct VotingOption {
    pub option_id: String,
    pub message: String,
}

/// The definition of a poll, fixed when it is created.
pub struct VotingOptions {
    /// Identity of the account that created the poll.
    pub creator: String,
    /// Identifier of the poll.
    pub poll_id: String,
    /// The question voted on.
    pub question: String,
    pub variants: Vec<VotingOption>,
}

/// The running results of a poll.
pub struct VotingResults {
    /// Identifier of the poll.
    pub poll_id: String,
    /// Number of votes for each option id that received at least one.
    pub variants: Vec<(String, usize)>,
    /// Identities that have already voted.
    pub voted: Vec<String>,
}

/// A poll together with its results.
pub struct VotingStats {
    pub poll: VotingOptions,
    pub results: VotingResults,
}

/// Abstract content of a `VotingOptions`.
pub ghost struct PollView {
    pub creator: Seq<char>,
    pub poll_id: Seq<char>,
    pub question: Seq<char>,
    pub variants: Seq<(Seq<char>, Seq<char>)>,
}

/// Abstract content of a `VotingResults`: tallies as a map, voters as a set.
pub ghost struct ResultsView {
    pub poll_id: Seq<char>,
    pub variants: Map<Seq<char>, nat>,
    pub voted: Set<Seq<char>>,
}

/// The keys of a string-keyed list of pairs.
pub open spec fn keys_of<V>(s: Seq<(String, V)>) -> Seq<Seq<char>> {
    s.map_values(|p: (String, V)| p.0@)
}

/// The counts of a tally list.
pub open spec fn counts_of(s: Seq<(String, usize)>) -> Seq<nat> {
    s.map_values(|p: (String, usize)| p.1 as nat)
}

/// A tally list read as a map from option id to count.
pub open spec fn tally_view(s: Seq<(String, usize)>) -> Map<Seq<char>, nat> {
    assoc(keys_of(s), counts_of(s))
}

/// The identities of a voter list.
pub open spec fn voter_ids(s: Seq<String>) -> Seq<Seq<char>> {
    s.map_values(|v: String| v@)
}

impl View for VotingOption {
    type V = (Seq<char>, Seq<char>);

    open spec fn view(&self) -> (Seq<char>, Seq<char>) {
        (self.option_id@, self.message@)
    }
}

impl View for VotingOptions {
    type V = PollView;

    open spec fn view(&self) -> PollView {
        PollView {
            creator: self.creator@,
            poll_id: self.poll_id@,
            question: self.question@,
            variants: self.variants@.map_values(|o: VotingOption| o@),
        }
    }
}

impl View for VotingResults {
    type V = ResultsView;

    open spec fn view(&self) -> ResultsView {
        ResultsView {
            poll_id: self.poll_id@,
            variants: tally_view(self.variants@),
            voted: voter_ids(self.voted@).to_set(),
        }
    }
}

impl VotingResults {
    /// Option ids and voters are each listed once, and no count exceeds the
    /// number of voters.
    pub open spec fn wf(&self) -> bool {
        &&& keys_of(self.variants@).no_duplicates()
        &&& voter_ids(self.voted@).no_duplicates()
        &&& forall|j: int|
            0 <= j < self.variants@.len() ==> self.variants@[j].1 <= self.voted@.len()
    }
}

impl Clone for VotingOption {
    fn clone(&self) -> (r: Self)
        ensures
            r@ == self@,
    {
        VotingOption { option_id: self.option_id.clone(), message: self.message.clone() }
    }
}

impl Clone for VotingOptions {
    fn clone(&self) -> (r: Self)
        ensures
            r@ == self@,
    {
        let variants = self.variants.clone();
        assert(variants@.map_values(|o: VotingOption| o@) =~= self.variants@.map_values(
            |o: VotingOption| o@,
        ));
        VotingOptions {
            creator: self.creator.clone(),
            poll_id: self.poll_id.clone(),
            question: self.question.clone(),
            variants,
        }
    }
}

impl Clone for VotingResults {
    fn clone(&self) -> (r: Self)
        ensures
            r@ == self@,
            r.variants@ == self.variants@,
            r.voted@ == self.voted@,
    {
        let mut variants: Vec<(String, usize)> = Vec::new();
        let mut j: usize = 0;
        while j < self.variants.len()
            invariant
                j <= self.variants@.len(),
                variants@ =~= self.variants@.take(j as int),
            decreases self.variants@.len() - j,
        {
            let entry = (self.variants[j].0.clone(), self.variants[j].1);
            variants.push(entry);
            j = j + 1;
        }
        assert(self.variants@.take(j as int) =~= self.variants@);
        let voted = self.voted.clone();
        assert(voted@ =~= self.voted@);
        VotingResults { poll_id: self.poll_id.clone(), variants, voted }
    }
}

} // verus!

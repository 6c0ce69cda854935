//! Properties of the store's operations, stated over the models that the
//! operations' contracts use.

use vstd::prelude::*;

use crate::store::{after_create, after_vote, can_vote, count_in, selected, StoreView};

verus! {

/// A poll id that was never filed refuses every vote, and the refused vote
/// leaves the store as it was.
pub proof fn lemma_unknown_poll_refuses_votes(
    m: StoreView,
    voter: Seq<char>,
    poll_id: Seq<char>,
    ballot: Seq<(Seq<char>, int)>,
)
    requires
        !m.contains_key(poll_id),
    ensures
        !can_vote(m, voter, poll_id),
        after_vote(m, voter, poll_id, ballot) == m,
{
}

/// Right after a poll is created, it is found under its id with the given
/// question and options, no counts and no voters.
pub proof fn lemma_created_poll_is_found(
    m: StoreView,
    creator: Seq<char>,
    poll_id: Seq<char>,
    question: Seq<char>,
    variants: Seq<(Seq<char>, Seq<char>)>,
)
    ensures
        ({
            let after = after_create(m, creator, poll_id, question, variants);
            &&& after.contains_key(poll_id)
            &&& after[poll_id].0.question == question
            &&& after[poll_id].0.variants == variants
            &&& after[poll_id].1.variants == Map::<Seq<char>, nat>::empty()
            &&& after[poll_id].1.voted == Set::<Seq<char>>::empty()
        }),
{
}

/// A voter's first vote on an existing poll is accepted; any further vote by
/// the same voter on that poll is refused and changes nothing.
pub proof fn lemma_one_vote_per_voter(
    m: StoreView,
    voter: Seq<char>,
    poll_id: Seq<char>,
    first: Seq<(Seq<char>, int)>,
    second: Seq<(Seq<char>, int)>,
)
    requires
        m.contains_key(poll_id),
        !m[poll_id].1.voted.contains(voter),
    ensures
        can_vote(m, voter, poll_id),
        !can_vote(after_vote(m, voter, poll_id, first), voter, poll_id),
        after_vote(after_vote(m, voter, poll_id, first), voter, poll_id, second) == after_vote(
            m,
            voter,
            poll_id,
            first,
        ),
{
}

/// An accepted vote adds exactly one to the count of each option its ballot
/// selects, and leaves every other option as it was.
pub proof fn lemma_accepted_ballot_counts(
    m: StoreView,
    voter: Seq<char>,
    poll_id: Seq<char>,
    ballot: Seq<(Seq<char>, int)>,
    k: Seq<char>,
)
    requires
        can_vote(m, voter, poll_id),
    ensures
        ({
            let before = m[poll_id].1.variants;
            let after = after_vote(m, voter, poll_id, ballot)[poll_id].1.variants;
            &&& selected(ballot, k) ==> after.contains_key(k) && count_in(after, k) == count_in(
                before,
                k,
            ) + 1
            &&& !selected(ballot, k) ==> after.contains_key(k) == before.contains_key(k)
                && count_in(after, k) == count_in(before, k)
        }),
{
}

} // verus!

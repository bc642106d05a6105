//! Persistent vote state: the current term and the node voted for in it.

use vstd::prelude::*;

use crate::text;

verus! {

/// The vote as it is stored.
#[derive(Clone, Debug, PartialEq, Eq)]
pub struct Vote {
    pub term: u64,
    /// Node id voted for in `term`. Empty means that there is no vote yet.
    pub voted_for: String,
}

impl Default for Vote {
    fn default() -> (r: Self)
        ensures
            r.term == 0,
            r.voted_for@ == Seq::<char>::empty(),
    {
        Vote { term: 0, voted_for: String::new() }
    }
}

/// The text that stands for a vote.
pub open spec fn vote_text(voted_for: Option<u64>) -> Seq<char> {
    match voted_for {
        Some(id) => text::decimal(id as nat),
        None => Seq::empty(),
    }
}

/// The vote to be stored for a term and the node voted for in it.
pub fn stored_vote(term: u64, voted_for: Option<u64>) -> (r: Vote)
    ensures
        r.term == term,
        r.voted_for@ == vote_text(voted_for),
{
    Vote {
        term,
        voted_for: match voted_for {
            Some(id) => text::decimal_u64(id),
            None => String::new(),
        },
    }
}

/// What a stored vote says: the term and the node voted for. `None` where there is no
/// vote, or where it does not name a node.
pub open spec fn vote_of(term: u64, voted_for: Seq<char>) -> Option<(u64, u64)> {
    if term == 0 && voted_for.len() == 0 {
        None
    } else {
        match text::u64_value(voted_for) {
            Some(id) => Some((term, id)),
            None => None,
        }
    }
}

/// Reads a stored vote.
pub fn loaded_vote(vote: &Vote) -> (r: Option<(u64, u64)>)
    ensures
        r == vote_of(vote.term, vote.voted_for@),
{
    if vote.term == 0 && vote.voted_for.as_str().is_empty() {
        return None;
    }
    match text::parse_u64(vote.voted_for.as_str()) {
        Some(id) => Some((vote.term, id)),
        None => None,
    }
}

/// The vote of a node, as it was last saved.
#[derive(Debug)]
pub struct VoteStore {
    saved: Option<Vote>,
}

impl VoteStore {
    /// Term and node of the vote: those last saved, or zero and nothing where none was.
    pub closed spec fn kept(&self) -> (u64, Seq<char>) {
        match self.saved {
            Some(v) => (v.term, v.voted_for@),
            None => (0, Seq::empty()),
        }
    }

    /// Takes over the vote that was saved before, if there is one.
    pub fn open(saved: Option<Vote>) -> (r: Self)
        ensures
            r.kept() == (match saved {
                Some(v) => (v.term, v.voted_for@),
                None => (0u64, Seq::<char>::empty()),
            }),
    {
        VoteStore { saved }
    }

    /// The vote that was last saved, and the default one where none was.
    pub fn load(&self) -> (r: Vote)
        ensures
            (r.term, r.voted_for@) == self.kept(),
    {
        match &self.saved {
            Some(v) => Vote { term: v.term, voted_for: v.voted_for.clone() },
            None => Vote::default(),
        }
    }

    /// Saves a vote in place of the one before.
    pub fn save(&mut self, vote: &Vote)
        ensures
            final(self).kept() == (vote.term, vote.voted_for@),
    {
        self.saved = Some(Vote { term: vote.term, voted_for: vote.voted_for.clone() });
    }
}

/// A vote for a node is read back as it was stored; without a node there is no vote.
pub proof fn law_vote_round_trip(term: u64, voted_for: Option<u64>)
    ensures
        vote_of(term, vote_text(voted_for)) == (match voted_for {
            Some(id) => Some((term, id)),
            None => None,
        }),
{
    match voted_for {
        Some(id) => {
            text::lemma_u64_round_trip(id);
            text::lemma_decimal_digits(id as nat);
        },
        None => {},
    }
}

} // verus!

//! The values the engine produces.

use std::sync::Arc;
use vstd::prelude::*;

use crate::homophones::HomophoneSets;

verus! {

/// An edit the engine can make, at a character index of the scanned text.
#[derive(Clone, Copy, Debug, PartialEq, Eq, Structural)]
pub enum Mutation {
    /// Swap the letter at this index with the next one.
    SwapLetters(usize),
    /// Remove the punctuation character at this index.
    RemovePunctuation(usize),
    /// Replace the word at this index, of this length, with a homophone.
    ReplaceHomophone(usize, usize),
}

impl Mutation {
    /// The index the edit starts at.
    pub open spec fn spec_position(&self) -> usize {
        match *self {
            Mutation::SwapLetters(i) => i,
            Mutation::RemovePunctuation(i) => i,
            Mutation::ReplaceHomophone(i, _) => i,
        }
    }

    /// The index the edit starts at.
    #[verifier::when_used_as_spec(spec_position)]
    pub fn position(&self) -> (r: usize)
        ensures
            r == self.spec_position(),
    {
        match self {
            Mutation::SwapLetters(i) => *i,
            Mutation::RemovePunctuation(i) => *i,
            Mutation::ReplaceHomophone(i, _) => *i,
        }
    }
}

/// The outcome of one run of the engine.
pub struct MutationResult {
    /// The mutated passage.
    pub mutated_text: String,
    /// The edits that changed the passage, in the order they were applied,
    /// each with its site in the input passage.
    pub mutations: Vec<Mutation>,
}

/// The kind of an edit, as reported to a client.
#[derive(Clone, Copy, Debug, PartialEq, Eq, Structural)]
pub enum MutationResponseType {
    /// A letter swapped with the next one.
    SwapLetters,
    /// A punctuation character removed.
    RemovePunctuation,
    /// A word replaced with a homophone.
    ReplaceHomophone,
}

/// One edit, as reported to a client: the character span it covers in the
/// input passage, and its kind.
#[derive(Clone, Copy, Debug, PartialEq, Eq, Structural)]
pub struct MutationResponseItem {
    /// The character index where the edit begins.
    pub start: usize,
    /// The character index where the edit ends: the same as `start` for a
    /// single-character edit, one past the replaced word for a homophone.
    pub end: usize,
    /// What the edit did.
    pub kind: MutationResponseType,
}

/// The result of a run of the engine, as reported to a client.
pub struct MutationResponse {
    /// The mutated passage.
    pub mutated_text: String,
    /// The edits that were applied, and where.
    pub mutations: Vec<MutationResponseItem>,
}

/// State shared by every request a service handles: the homophone table.
#[derive(Clone)]
pub struct AppState {
    pub homophones: Arc<HomophoneSets>,
}

/// The reported form of an edit.
pub open spec fn item_of(m: Mutation) -> MutationResponseItem {
    match m {
        Mutation::SwapLetters(i) => MutationResponseItem {
            start: i,
            end: i,
            kind: MutationResponseType::SwapLetters,
        },
        Mutation::RemovePunctuation(i) => MutationResponseItem {
            start: i,
            end: i,
            kind: MutationResponseType::RemovePunctuation,
        },
        Mutation::ReplaceHomophone(i, len) => MutationResponseItem {
            start: i,
            end: if i + len <= usize::MAX { (i + len) as usize } else { usize::MAX },
            kind: MutationResponseType::ReplaceHomophone,
        },
    }
}

impl MutationResponseItem {
    /// The reported form of `m`.
    pub fn from_mutation(m: Mutation) -> (r: Self)
        ensures
            r == item_of(m),
    {
        match m {
            Mutation::SwapLetters(i) => MutationResponseItem {
                start: i,
                end: i,
                kind: MutationResponseType::SwapLetters,
            },
            Mutation::RemovePunctuation(i) => MutationResponseItem {
                start: i,
                end: i,
                kind: MutationResponseType::RemovePunctuation,
            },
            Mutation::ReplaceHomophone(i, len) => {
                let end = if i <= usize::MAX - len { i + len } else { usize::MAX };
                MutationResponseItem { start: i, end, kind: MutationResponseType::ReplaceHomophone }
            },
        }
    }
}

impl MutationResponse {
    /// The reported form of a run's result: the same text, and each applied
    /// edit in order.
    pub fn from_result(res: MutationResult) -> (r: Self)
        ensures
            r.mutated_text@ == res.mutated_text@,
            r.mutations@ == res.mutations@.map_values(|m: Mutation| item_of(m)),
    {
        let mut items: Vec<MutationResponseItem> = Vec::new();
        let mut k: usize = 0;
        while k < res.mutations.len()
            invariant
                k <= res.mutations.len(),
                items@ == res.mutations@.subrange(0, k as int).map_values(|m: Mutation| item_of(m)),
            decreases res.mutations.len() - k,
        {
            items.push(MutationResponseItem::from_mutation(res.mutations[k]));
            k += 1;
            assert(items@ =~= res.mutations@.subrange(0, k as int).map_values(
                |m: Mutation| item_of(m),
            ));
        }
        assert(res.mutations@.subrange(0, k as int) =~= res.mutations@);
        MutationResponse { mutated_text: res.mutated_text, mutations: items }
    }
}

} // verus!

//! The server-side store: an in-memory mapping from obfuscated identifier to
//! encrypted envelope, for the process lifetime only.

use vstd::prelude::*;
use crate::kvseq::{entries_map, lemma_lookup, lookup_seq};
use crate::text::token;
use crate::wire::{wf_response, GetResponse};

verus! {

/// The store's state: opaque identifier to envelope text, last writer wins.
pub struct State {
    entries: Vec<(String, String)>,
}

impl View for State {
    type V = Map<Seq<char>, Seq<char>>;

    closed spec fn view(&self) -> Map<Seq<char>, Seq<char>> {
        entries_map(self.entries@)
    }
}

impl State {
    /// Every stored envelope is a token, as everything a decoded `Put` frame
    /// carries is, so every answer the store gives can be framed in turn.
    pub closed spec fn wf(&self) -> bool {
        forall|j: int| 0 <= j < self.entries@.len() ==> token((#[trigger] self.entries@[j]).1@)
    }

    /// An empty store.
    pub fn new() -> (r: State)
        ensures
            r@ == Map::<Seq<char>, Seq<char>>::empty(),
            r.wf(),
    {
        State { entries: Vec::new() }
    }
}

/// Stores an envelope under an identifier: an unconditional upsert, the last
/// writer wins.
pub fn put(state: &mut State, fileid: String, file: String)
    ensures
        final (state)@ == old(state)@.insert(fileid@, file@),
        old(state).wf() && token(file@) ==> final (state).wf(),
{
    let ghost k = fileid@;
    let ghost v = file@;
    let ghost before = state.entries@;
    state.entries.push((fileid, file));
    proof {
        assert(state.entries@.drop_last() =~= before);
        assert(state.entries@.last().0@ == k && state.entries@.last().1@ == v);
        if old(state).wf() && token(v) {
            assert forall|j: int| 0 <= j < state.entries@.len() implies token(
                (#[trigger] state.entries@[j]).1@,
            ) by {
                if j < state.entries@.len() - 1 {
                    assert(state.entries@[j] == before[j]);
                }
            }
        }
    }
}

/// Looks an identifier up: the stored envelope, or an empty answer when the
/// identifier is unknown.
pub fn get(state: &State, fileid: String) -> (r: GetResponse)
    ensures
        state@.contains_key(fileid@) ==> (r.data matches Some(d) && d@ == state@[fileid@]),
        !state@.contains_key(fileid@) ==> r.data is None,
        state.wf() ==> wf_response(r),
{
    let ghost k = fileid@;
    let n = state.entries.len();
    proof {
        assert(state.entries@.take(n as int) =~= state.entries@);
    }
    let mut i: usize = n;
    while i > 0
        invariant
            i <= n,
            n == state.entries@.len(),
            k == fileid@,
            lookup_seq(state.entries@.take(i as int), k) == lookup_seq(state.entries@, k),
        decreases i,
    {
        proof {
            assert(state.entries@.take(i as int).last() == state.entries@[i - 1]);
            assert(state.entries@.take(i as int).drop_last() =~= state.entries@.take(i - 1));
        }
        if state.entries[i - 1].0.eq(&fileid) {
            proof {
                lemma_lookup(state.entries@, k);
            }
            return GetResponse { data: Some(state.entries[i - 1].1.clone()) };
        }
        i -= 1;
    }
    proof {
        assert(state.entries@.take(0) =~= Seq::<(String, String)>::empty());
        lemma_lookup(state.entries@, k);
    }
    GetResponse { data: None }
}

} // verus!

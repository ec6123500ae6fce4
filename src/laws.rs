//! Properties of the record that hold across operations.
use vstd::prelude::*;
use crate::record::{Identity, BaseAccount, Direction};
use crate::layout::{
    CAPACITY, ENTRY_FIXED_LEN, HEADER_LEN, entries_layout, lemma_entries_len_lower,
    lemma_entries_layout_unique, same_entry,
};
use vstd::bytes::{
    spec_u32_to_le_bytes, spec_u64_to_le_bytes, lemma_auto_spec_u32_to_from_le_bytes,
    lemma_auto_spec_u64_to_from_le_bytes,
};
use crate::program::{appended, vote_applied};

verus! {

/// After a run of successful appends on a new record, each state holds as many
/// entries as appends so far, and entry `i` holds the link and submitter of the
/// `i`-th append, in every later state.
pub proof fn law_appends_count_and_keep(
    states: Seq<BaseAccount>,
    links: Seq<String>,
    users: Seq<Identity>,
)
    requires
        links.len() == users.len(),
        states.len() == links.len() + 1,
        states[0].total_gifs == 0,
        states[0].gif_list@.len() == 0,
        forall|k: int| 0 <= k < links.len() ==> appended(#[trigger] states[k], states[k + 1], links[k], users[k]),
    ensures
        forall|j: int| 0 <= j < states.len() ==> (#[trigger] states[j]).total_gifs == j && states[j].gif_list@.len() == j,
        forall|j: int, i: int| 0 <= i < j < states.len() ==> {
            &&& (#[trigger] states[j].gif_list@[i]).gif_link == links[i]
            &&& states[j].gif_list@[i].user_address == users[i]
        },
{
    assert forall|j: int| 0 <= j < states.len() implies {
        &&& (#[trigger] states[j]).total_gifs == j
        &&& states[j].gif_list@.len() == j
        &&& forall|i: int| 0 <= i < j ==> states[j].gif_list@[i].gif_link == links[i]
            && states[j].gif_list@[i].user_address == users[i]
    } by {
        lemma_appends_prefix(states, links, users, j);
    }
}

proof fn lemma_appends_prefix(states: Seq<BaseAccount>, links: Seq<String>, users: Seq<Identity>, j: int)
    requires
        links.len() == users.len(),
        states.len() == links.len() + 1,
        states[0].total_gifs == 0,
        states[0].gif_list@.len() == 0,
        forall|k: int| 0 <= k < links.len() ==> appended(#[trigger] states[k], states[k + 1], links[k], users[k]),
        0 <= j < states.len(),
    ensures
        states[j].total_gifs == j,
        states[j].gif_list@.len() == j,
        forall|i: int| 0 <= i < j ==> states[j].gif_list@[i].gif_link == links[i]
            && states[j].gif_list@[i].user_address == users[i],
    decreases j,
{
    if j > 0 {
        lemma_appends_prefix(states, links, users, j - 1);
        assert(appended(states[j - 1], states[j], links[j - 1], users[j - 1]));
    }
}

/// A vote on an existing entry raises exactly the chosen counter of exactly
/// that entry by one; every other entry and counter stays as it was.
pub proof fn law_vote_in_range(pre: BaseAccount, post: BaseAccount, index: u32, dir: Direction)
    requires
        index < pre.gif_list@.len(),
        pre.gif_list@[index as int].votes(dir) < u64::MAX,
        vote_applied(pre, post, index, dir),
    ensures
        post.total_gifs == pre.total_gifs,
        post.gif_list@.len() == pre.gif_list@.len(),
        post.gif_list@[index as int].votes(dir) == pre.gif_list@[index as int].votes(dir) + 1,
        post.gif_list@[index as int].votes(dir.opposite()) == pre.gif_list@[index as int].votes(dir.opposite()),
        post.gif_list@[index as int].gif_link == pre.gif_list@[index as int].gif_link,
        post.gif_list@[index as int].user_address == pre.gif_list@[index as int].user_address,
        forall|j: int| 0 <= j < pre.gif_list@.len() && j != index ==> post.gif_list@[j] == pre.gif_list@[j],
{
}

/// A vote on an index past the last entry, also on an empty record, changes
/// nothing.
pub proof fn law_vote_out_of_range(pre: BaseAccount, post: BaseAccount, index: u32, dir: Direction)
    requires
        index >= pre.gif_list@.len(),
        vote_applied(pre, post, index, dir),
    ensures
        post.total_gifs == pre.total_gifs,
        post.gif_list@ == pre.gif_list@,
{
}

/// The fixed storage area bounds how many entries a well-formed record holds.
pub proof fn law_capacity_bounds_entries(a: BaseAccount)
    requires
        a.wf(),
    ensures
        HEADER_LEN + ENTRY_FIXED_LEN * a.total_gifs <= CAPACITY,
{
    lemma_entries_len_lower(a.gif_list@);
}

/// A well-formed record is determined by its layout: two that lay out to the
/// same bytes hold the same count and the same entries. So the record that
/// `deserialize` reads back from `serialize`'s bytes is the one serialized.
pub proof fn law_layout_determines_record(a: BaseAccount, b: BaseAccount)
    requires
        a.wf(),
        b.wf(),
        a.layout() == b.layout(),
    ensures
        a.total_gifs == b.total_gifs,
        a.gif_list@.len() == b.gif_list@.len(),
        forall|i: int| 0 <= i < a.gif_list@.len() ==> same_entry(#[trigger] a.gif_list@[i], b.gif_list@[i]),
{
    lemma_auto_spec_u32_to_from_le_bytes();
    lemma_auto_spec_u64_to_from_le_bytes();
    let la = a.layout();
    lemma_entries_len_lower(a.gif_list@);
    lemma_entries_len_lower(b.gif_list@);
    assert(la.subrange(0, 8) =~= spec_u64_to_le_bytes(a.total_gifs));
    assert(la.subrange(0, 8) =~= spec_u64_to_le_bytes(b.total_gifs));
    assert(la.subrange(8, 12) =~= spec_u32_to_le_bytes(a.gif_list@.len() as u32));
    assert(la.subrange(8, 12) =~= spec_u32_to_le_bytes(b.gif_list@.len() as u32));
    assert(entries_layout(a.gif_list@) =~= la.subrange(12, la.len() as int));
    assert(entries_layout(b.gif_list@) =~= la.subrange(12, la.len() as int));
    lemma_entries_layout_unique(a.gif_list@, b.gif_list@, a.gif_list@.len() as int);
}

} // verus!

//! The three operations on the record: create it, append an entry, vote.
//!
//! The record lives in a slot that is empty until the record is created; each
//! operation takes the slot, and either applies in full or leaves it unchanged.
use vstd::prelude::*;
use vstd::utf8::encode_utf8;
use crate::record::{Identity, ItemStruct, BaseAccount, Direction, WallError};
use crate::layout::{
    CAPACITY, ENTRY_FIXED_LEN, lemma_entries_len_push,
    lemma_entries_len_update, lemma_entries_len_lower,
};

verus! {

impl BaseAccount {
    /// The record's invariant: the count matches the entries, and the layout
    /// fits the storage area.
    pub open spec fn wf(&self) -> bool {
        &&& self.total_gifs == self.gif_list@.len()
        &&& self.layout_len() <= CAPACITY
    }

    /// Whether this record meets its invariant, as a record read back from
    /// storage must be checked to.
    pub fn is_well_formed(&self) -> (r: bool)
        ensures
            r == self.wf(),
    {
        if !self.fits_capacity() {
            return false;
        }
        proof {
            lemma_entries_len_lower(self.gif_list@);
        }
        self.total_gifs == self.gif_list.len() as u64
    }

    /// Whether an entry with the link `link` still fits the storage area.
    pub open spec fn has_room_for(&self, link: Seq<char>) -> bool {
        self.layout_len() + ENTRY_FIXED_LEN + encode_utf8(link).len() <= CAPACITY
    }
}

/// The record in the slot, if any, is well formed.
pub open spec fn slot_wf(slot: Option<BaseAccount>) -> bool {
    match slot {
        Some(a) => a.wf(),
        None => true,
    }
}

/// `post` is `pre` with one more entry at the end, holding `link` and `user`
/// and no votes.
pub open spec fn appended(pre: BaseAccount, post: BaseAccount, link: String, user: Identity) -> bool {
    &&& post.total_gifs == pre.total_gifs + 1
    &&& post.gif_list@ == pre.gif_list@.push(ItemStruct::fresh(link, user))
}

/// `post` is `pre` after a vote in direction `dir` on entry `index`: the
/// counter of that entry is one higher if the entry exists, else nothing changed.
pub open spec fn vote_applied(pre: BaseAccount, post: BaseAccount, index: u32, dir: Direction) -> bool {
    &&& post.total_gifs == pre.total_gifs
    &&& post.gif_list@ == if index < pre.gif_list@.len() {
        pre.gif_list@.update(index as int, pre.gif_list@[index as int].voted(dir))
    } else {
        pre.gif_list@
    }
}

/// No counter in the slot's record would pass `u64::MAX` by this vote.
pub open spec fn vote_fits(slot: Option<BaseAccount>, index: u32, dir: Direction) -> bool {
    match slot {
        Some(a) => index < a.gif_list@.len() ==> a.gif_list@[index as int].votes(dir) < u64::MAX,
        None => true,
    }
}

/// The outcome of a vote on the slot: rejected with `RegistryNotFound` and
/// nothing changed when the slot is empty, else accepted as `vote_applied` says.
pub open spec fn vote_outcome(
    pre: Option<BaseAccount>,
    post: Option<BaseAccount>,
    index: u32,
    dir: Direction,
    r: Result<(), WallError>,
) -> bool {
    match pre {
        None => r == Err::<(), WallError>(WallError::RegistryNotFound) && post == pre,
        Some(a) => r == Ok::<(), WallError>(()) && post is Some && vote_applied(a, post.unwrap(), index, dir),
    }
}

/// Creates the record in an empty slot. Fails with `AlreadyInitialized`, and
/// leaves the slot as it was, when the record already exists.
pub fn start_stuff_off(slot: &mut Option<BaseAccount>) -> (r: Result<(), WallError>)
    ensures
        old(slot).is_some() ==> r == Err::<(), WallError>(WallError::AlreadyInitialized) && *final(slot) == *old(slot),
        old(slot).is_none() ==> r == Ok::<(), WallError>(()) && final(slot).is_some()
            && final(slot).unwrap().total_gifs == 0 && final(slot).unwrap().gif_list@ == Seq::<ItemStruct>::empty()
            && final(slot).unwrap().wf(),
{
    if slot.is_some() {
        return Err(WallError::AlreadyInitialized);
    }
    let account = BaseAccount::new();
    proof {
        assert(account.gif_list@ =~= Seq::<ItemStruct>::empty());
    }
    *slot = Some(account);
    Ok(())
}

/// Appends an entry holding `gif_link` and `user`, with no votes.
///
/// Fails with `RegistryNotFound` when the slot is empty, and with
/// `CapacityExceeded` when the record's layout would no longer fit the
/// storage area; in both cases the slot is left as it was.
pub fn add_gif(slot: &mut Option<BaseAccount>, gif_link: String, user: Identity) -> (r: Result<(), WallError>)
    requires
        slot_wf(*old(slot)),
    ensures
        slot_wf(*final(slot)),
        old(slot).is_none() ==> r == Err::<(), WallError>(WallError::RegistryNotFound) && *final(slot) == *old(slot),
        old(slot).is_some() && !old(slot).unwrap().has_room_for(gif_link@) ==>
            r == Err::<(), WallError>(WallError::CapacityExceeded) && *final(slot) == *old(slot),
        old(slot).is_some() && old(slot).unwrap().has_room_for(gif_link@) ==>
            r == Ok::<(), WallError>(()) && final(slot).is_some()
            && appended(old(slot).unwrap(), final(slot).unwrap(), gif_link, user),
{
    match slot {
        None => Err(WallError::RegistryNotFound),
        Some(account) => {
            let size = account.serialized_size();
            let n = gif_link.as_str().as_bytes().len();
            if size > CAPACITY - ENTRY_FIXED_LEN || n > CAPACITY - ENTRY_FIXED_LEN - size {
                Err(WallError::CapacityExceeded)
            } else {
                let ghost pre = *account;
                let item = ItemStruct { gif_link, user_address: user, gmi_votes: 0, ngmi_votes: 0 };
                proof {
                    lemma_entries_len_lower(pre.gif_list@);
                    lemma_entries_len_push(pre.gif_list@, item);
                }
                account.gif_list.push(item);
                account.total_gifs = account.total_gifs + 1;
                Ok(())
            }
        },
    }
}

/// Records a vote in direction `dir` on the entry at `index`.
///
/// Fails with `RegistryNotFound` when the slot is empty. An `index` past the
/// last entry is accepted and changes nothing.
pub fn vote(slot: &mut Option<BaseAccount>, index: u32, dir: Direction) -> (r: Result<(), WallError>)
    requires
        slot_wf(*old(slot)),
        vote_fits(*old(slot), index, dir),
    ensures
        slot_wf(*final(slot)),
        vote_outcome(*old(slot), *final(slot), index, dir, r),
{
    match slot {
        None => Err(WallError::RegistryNotFound),
        Some(account) => {
            let i = index as usize;
            if i < account.gif_list.len() {
                let ghost pre = *account;
                let item = &mut account.gif_list[i];
                match dir {
                    Direction::Up => item.gmi_votes = item.gmi_votes + 1,
                    Direction::Down => item.ngmi_votes = item.ngmi_votes + 1,
                }
                proof {
                    assert(account.gif_list@ =~= pre.gif_list@.update(i as int, pre.gif_list@[i as int].voted(dir)));
                    lemma_entries_len_update(pre.gif_list@, i as int, pre.gif_list@[i as int].voted(dir));
                }
            }
            Ok(())
        },
    }
}

/// Records an up-vote on the entry at `index`; see `vote`.
pub fn gmi_vote(slot: &mut Option<BaseAccount>, index: u32) -> (r: Result<(), WallError>)
    requires
        slot_wf(*old(slot)),
        vote_fits(*old(slot), index, Direction::Up),
    ensures
        slot_wf(*final(slot)),
        vote_outcome(*old(slot), *final(slot), index, Direction::Up, r),
{
    vote(slot, index, Direction::Up)
}

/// Records a down-vote on the entry at `index`; see `vote`.
pub fn ngmi_vote(slot: &mut Option<BaseAccount>, index: u32) -> (r: Result<(), WallError>)
    requires
        slot_wf(*old(slot)),
        vote_fits(*old(slot), index, Direction::Down),
    ensures
        slot_wf(*final(slot)),
        vote_outcome(*old(slot), *final(slot), index, Direction::Down, r),
{
    vote(slot, index, Direction::Down)
}

} // verus!

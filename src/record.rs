use vstd::prelude::*;

verus! {

/// An authenticated caller, as the 32 bytes of its public key.
#[derive(Clone, Copy, Debug, PartialEq, Eq)]
pub struct Identity {
    pub bytes: [u8; 32],
}

/// One submitted link with its two vote counters.
pub struct ItemStruct {
    pub gif_link: String,
    pub user_address: Identity,
    pub gmi_votes: u64,
    pub ngmi_votes: u64,
}

/// The shared record: the number of entries and the entries in submission order.
pub struct BaseAccount {
    pub total_gifs: u64,
    pub gif_list: Vec<ItemStruct>,
}

/// Which counter a vote increments.
#[derive(Clone, Copy, Debug, PartialEq, Eq, Structural)]
pub enum Direction {
    Up,
    Down,
}

/// Why an operation on the record was rejected.
#[derive(Clone, Copy, Debug, PartialEq, Eq, Structural)]
pub enum WallError {
    AlreadyInitialized,
    RegistryNotFound,
    CapacityExceeded,
}

impl Direction {
    /// The other direction.
    pub open spec fn opposite(self) -> Direction {
        match self {
            Direction::Up => Direction::Down,
            Direction::Down => Direction::Up,
        }
    }
}

impl ItemStruct {
    /// A fresh entry: the given link and submitter, no votes yet.
    pub open spec fn fresh(link: String, user: Identity) -> ItemStruct {
        ItemStruct { gif_link: link, user_address: user, gmi_votes: 0, ngmi_votes: 0 }
    }

    /// The value of the counter that `dir` names.
    pub open spec fn votes(&self, dir: Direction) -> u64 {
        match dir {
            Direction::Up => self.gmi_votes,
            Direction::Down => self.ngmi_votes,
        }
    }

    /// This entry with the counter that `dir` names one higher.
    pub open spec fn voted(self, dir: Direction) -> ItemStruct {
        match dir {
            Direction::Up => ItemStruct { gmi_votes: (self.gmi_votes + 1) as u64, ..self },
            Direction::Down => ItemStruct { ngmi_votes: (self.ngmi_votes + 1) as u64, ..self },
        }
    }
}

impl BaseAccount {
    /// An empty record.
    pub fn new() -> (r: BaseAccount)
        ensures
            r.total_gifs == 0,
            r.gif_list@.len() == 0,
    {
        BaseAccount { total_gifs: 0, gif_list: Vec::new() }
    }
}

} // verus!

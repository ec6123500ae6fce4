//! The record's byte layout.
//!
//! A record is laid out as
//!   - the entry count, `u64` little-endian;
//!   - the number of entries that follow, `u32` little-endian;
//!   - each entry in order: the link's UTF-8 length as `u32` little-endian,
//!     the link's UTF-8 bytes, the submitter's 32 bytes, the up-vote count
//!     and the down-vote count, each `u64` little-endian.
//!
//! The storage area holds a type tag of `DISCRIMINATOR_LEN` bytes before the
//! record, so the record itself may take at most `CAPACITY` bytes.
use vstd::prelude::*;
use vstd::bytes::{
    spec_u32_to_le_bytes, spec_u64_to_le_bytes, spec_u32_from_le_bytes, u32_to_le_bytes, u64_to_le_bytes,
    u32_from_le_bytes, u64_from_le_bytes, lemma_auto_spec_u32_to_from_le_bytes,
    lemma_auto_spec_u64_to_from_le_bytes,
};
use vstd::slice::{slice_to_vec, slice_subrange};
use vstd::string::StrSliceExecFns;
use vstd::utf8::{
    encode_utf8, decode_utf8, valid_utf8, encode_utf8_valid_utf8, decode_utf8_encode_utf8,
    encode_utf8_decode_utf8,
};
use crate::record::{Identity, ItemStruct, BaseAccount};

verus! {

/// Size of the storage area that holds a record, fixed when it is created.
pub const ACCOUNT_SPACE: usize = 9000;

/// Bytes at the start of the storage area taken by the record's type tag.
pub const DISCRIMINATOR_LEN: usize = 8;

/// The most bytes that a record's layout may take.
pub const CAPACITY: usize = ACCOUNT_SPACE - DISCRIMINATOR_LEN;

/// Bytes of the record before its first entry: the count and the list length.
pub const HEADER_LEN: usize = 12;

/// Bytes of an entry besides its link's text: the text's length prefix, the
/// submitter and the two counters.
pub const ENTRY_FIXED_LEN: usize = 52;

/// The UTF-8 bytes of an entry's link.
pub open spec fn link_bytes(item: ItemStruct) -> Seq<u8> {
    encode_utf8(item.gif_link@)
}

/// The bytes that lay out one entry.
pub open spec fn entry_layout(item: ItemStruct) -> Seq<u8> {
    spec_u32_to_le_bytes(link_bytes(item).len() as u32) + link_bytes(item)
        + item.user_address.bytes@ + spec_u64_to_le_bytes(item.gmi_votes)
        + spec_u64_to_le_bytes(item.ngmi_votes)
}

/// The number of bytes that lay out one entry.
pub open spec fn entry_len(item: ItemStruct) -> nat {
    ENTRY_FIXED_LEN as nat + link_bytes(item).len()
}

/// The bytes that lay out a sequence of entries, one after the other.
pub open spec fn entries_layout(s: Seq<ItemStruct>) -> Seq<u8>
    decreases s.len(),
{
    if s.len() == 0 {
        Seq::empty()
    } else {
        entries_layout(s.drop_last()) + entry_layout(s.last())
    }
}

/// The number of bytes that lay out a sequence of entries.
pub open spec fn entries_len(s: Seq<ItemStruct>) -> nat
    decreases s.len(),
{
    if s.len() == 0 {
        0
    } else {
        entries_len(s.drop_last()) + entry_len(s.last())
    }
}

impl BaseAccount {
    /// The bytes that lay out this record.
    pub open spec fn layout(&self) -> Seq<u8> {
        spec_u64_to_le_bytes(self.total_gifs) + spec_u32_to_le_bytes(self.gif_list@.len() as u32)
            + entries_layout(self.gif_list@)
    }

    /// The number of bytes that lay out this record.
    pub open spec fn layout_len(&self) -> nat {
        HEADER_LEN as nat + entries_len(self.gif_list@)
    }

    /// The number of bytes that this record takes when serialized.
    pub fn serialized_size(&self) -> (n: usize)
        requires
            self.layout_len() <= CAPACITY,
        ensures
            n == self.layout_len(),
    {
        let ghost s = self.gif_list@;
        let mut total: usize = HEADER_LEN;
        let mut i: usize = 0;
        while i < self.gif_list.len()
            invariant
                i <= s.len(),
                s == self.gif_list@,
                HEADER_LEN + entries_len(s) <= CAPACITY,
                total == HEADER_LEN + entries_len(s.take(i as int)),
            decreases s.len() - i,
        {
            proof {
                assert(s.take(i + 1).drop_last() =~= s.take(i as int));
                lemma_entries_len_prefix(s, i + 1);
            }
            let n = self.gif_list[i].gif_link.as_str().as_bytes().len();
            total = total + ENTRY_FIXED_LEN + n;
            i = i + 1;
        }
        proof {
            assert(s.take(i as int) =~= s);
        }
        total
    }

    /// Whether this record's layout fits the storage area.
    pub fn fits_capacity(&self) -> (r: bool)
        ensures
            r == (self.layout_len() <= CAPACITY),
    {
        let ghost s = self.gif_list@;
        let mut total: usize = HEADER_LEN;
        let mut i: usize = 0;
        while i < self.gif_list.len()
            invariant
                i <= s.len(),
                s == self.gif_list@,
                total == HEADER_LEN + entries_len(s.take(i as int)),
                total <= CAPACITY,
            decreases s.len() - i,
        {
            proof {
                assert(s.take(i + 1).drop_last() =~= s.take(i as int));
                lemma_entries_len_prefix(s, i + 1);
            }
            let n = self.gif_list[i].gif_link.as_str().as_bytes().len();
            if total > CAPACITY - ENTRY_FIXED_LEN || n > CAPACITY - ENTRY_FIXED_LEN - total {
                return false;
            }
            total = total + ENTRY_FIXED_LEN + n;
            i = i + 1;
        }
        proof {
            assert(s.take(i as int) =~= s);
        }
        true
    }

    /// The record laid out as bytes.
    pub fn serialize(&self) -> (r: Vec<u8>)
        requires
            self.layout_len() <= CAPACITY,
        ensures
            r@ == self.layout(),
            r@.len() == self.layout_len(),
    {
        proof {
            lemma_auto_spec_u32_to_from_le_bytes();
            lemma_auto_spec_u64_to_from_le_bytes();
            lemma_entries_layout_len(self.gif_list@);
        }
        let ghost s = self.gif_list@;
        let mut out = u64_to_le_bytes(self.total_gifs);
        let mut list_len = u32_to_le_bytes(self.gif_list.len() as u32);
        out.append(&mut list_len);
        let mut i: usize = 0;
        while i < self.gif_list.len()
            invariant
                i <= s.len(),
                s == self.gif_list@,
                HEADER_LEN + entries_len(s) <= CAPACITY,
                out@ == spec_u64_to_le_bytes(self.total_gifs) + spec_u32_to_le_bytes(s.len() as u32)
                    + entries_layout(s.take(i as int)),
            decreases s.len() - i,
        {
            proof {
                assert(s.take(i + 1).drop_last() =~= s.take(i as int));
                lemma_entries_len_prefix(s, i + 1);
                lemma_auto_spec_u32_to_from_le_bytes();
                lemma_auto_spec_u64_to_from_le_bytes();
            }
            let item = &self.gif_list[i];
            let text = item.gif_link.as_str().as_bytes_vec();
            let mut piece = u32_to_le_bytes(text.len() as u32);
            let mut text = text;
            piece.append(&mut text);
            let mut user = slice_to_vec(item.user_address.bytes.as_slice());
            piece.append(&mut user);
            let mut up = u64_to_le_bytes(item.gmi_votes);
            piece.append(&mut up);
            let mut down = u64_to_le_bytes(item.ngmi_votes);
            piece.append(&mut down);
            assert(piece@ == entry_layout(s[i as int]));
            out.append(&mut piece);
            proof {
                assert(out@ =~= spec_u64_to_le_bytes(self.total_gifs) + spec_u32_to_le_bytes(s.len() as u32)
                    + entries_layout(s.take(i + 1)));
            }
            i = i + 1;
        }
        proof {
            assert(s.take(i as int) =~= s);
        }
        out
    }
}

/// Relies on `String::from_utf8`: it accepts exactly the bytes that are valid
/// UTF-8, and the string it returns holds the characters that they encode.
#[verifier::external_body]
fn string_from_utf8(bytes: Vec<u8>) -> (r: Option<String>)
    ensures
        r.is_some() == valid_utf8(bytes@),
        r matches Some(s) ==> s@ == decode_utf8(bytes@),
{
    String::from_utf8(bytes).ok()
}

/// The bytes of `bytes` from `pos` on begin with the layout of `x`.
pub open spec fn entry_at(bytes: Seq<u8>, pos: int, x: ItemStruct) -> bool {
    &&& pos + entry_len(x) <= bytes.len()
    &&& bytes.subrange(pos, pos + entry_len(x)) == entry_layout(x)
}

/// Reads the entry whose layout starts at `pos`, and returns it with the
/// position after it.
fn read_entry(bytes: &[u8], pos: usize) -> (r: Option<(ItemStruct, usize)>)
    requires
        pos <= bytes@.len() <= CAPACITY,
    ensures
        r matches Some((item, next)) ==> next == pos + entry_len(item) && entry_at(bytes@, pos as int, item),
        forall|x: ItemStruct| #[trigger] entry_at(bytes@, pos as int, x)
            ==> r.is_some() && r.unwrap().1 == pos + entry_len(x),
{
    proof {
        lemma_auto_spec_u32_to_from_le_bytes();
        lemma_auto_spec_u64_to_from_le_bytes();
        assert forall|x: ItemStruct| #[trigger] entry_at(bytes@, pos as int, x) implies {
            let len = link_bytes(x).len() as int;
            &&& bytes@.subrange(pos as int, pos + 4) == spec_u32_to_le_bytes(len as u32)
            &&& bytes@.subrange(pos + 4, pos + 4 + len) == link_bytes(x)
            &&& len <= CAPACITY
        } by {
            let len = link_bytes(x).len() as int;
            let e = entry_layout(x);
            assert(e.subrange(0, 4) =~= spec_u32_to_le_bytes(len as u32));
            assert(e.subrange(4, 4 + len) =~= link_bytes(x));
            assert(bytes@.subrange(pos as int, pos + 4) =~= e.subrange(0, 4));
            assert(bytes@.subrange(pos + 4, pos + 4 + len) =~= e.subrange(4, 4 + len));
        }
    }
    if bytes.len() - pos < 4 {
        return None;
    }
    let n = u32_from_le_bytes(slice_subrange(bytes, pos, pos + 4)) as usize;
    let start = pos + 4;
    if n > bytes.len() - start || bytes.len() - start - n < 48 {
        return None;
    }
    let text = slice_to_vec(slice_subrange(bytes, start, start + n));
    proof {
        assert forall|x: ItemStruct| #[trigger] entry_at(bytes@, pos as int, x) implies valid_utf8(text@)
            && n == link_bytes(x).len() by {
            encode_utf8_valid_utf8(x.gif_link@);
        }
    }
    let link = match string_from_utf8(text) {
        Some(s) => s,
        None => {
            return None;
        },
    };
    let p = start + n;
    let mut id = [0u8; 32];
    let mut k: usize = 0;
    while k < 32
        invariant
            k <= 32,
            p + 48 <= bytes@.len() <= CAPACITY,
            forall|j: int| 0 <= j < k ==> id@[j] == bytes@[p + j],
        decreases 32 - k,
    {
        id[k] = bytes[p + k];
        k = k + 1;
    }
    let up = u64_from_le_bytes(slice_subrange(bytes, p + 32, p + 40));
    let down = u64_from_le_bytes(slice_subrange(bytes, p + 40, p + 48));
    let item = ItemStruct {
        gif_link: link,
        user_address: Identity { bytes: id },
        gmi_votes: up,
        ngmi_votes: down,
    };
    proof {
        decode_utf8_encode_utf8(text@);
        assert(link_bytes(item) == text@);
        assert(id@ =~= bytes@.subrange(p as int, p + 32));
        assert(bytes@.subrange(pos as int, p + 48) =~= entry_layout(item));
    }
    Some((item, p + 48))
}

impl BaseAccount {
    /// Reads a record back from bytes.
    ///
    /// Returns the record exactly when the bytes are the layout of a
    /// well-formed record.
    pub fn deserialize(bytes: &[u8]) -> (r: Option<BaseAccount>)
        ensures
            r matches Some(b) ==> b.wf() && b.layout() == bytes@,
            (exists|a: BaseAccount| a.wf() && a.layout() == bytes@) ==> r.is_some(),
    {
        let ghost found = exists|a: BaseAccount| a.wf() && a.layout() == bytes@;
        let ghost w = choose|a: BaseAccount| a.wf() && a.layout() == bytes@;
        let ghost t = w.gif_list@;
        proof {
            lemma_auto_spec_u32_to_from_le_bytes();
            lemma_auto_spec_u64_to_from_le_bytes();
            if found {
                lemma_entries_layout_len(t);
                lemma_entries_len_lower(t);
                assert(bytes@.subrange(0, 8) =~= spec_u64_to_le_bytes(w.total_gifs));
                assert(bytes@.subrange(8, 12) =~= spec_u32_to_le_bytes(t.len() as u32));
                assert(bytes@.subrange(12, bytes@.len() as int) =~= entries_layout(t));
            }
        }
        if bytes.len() > CAPACITY || bytes.len() < HEADER_LEN {
            return None;
        }
        let total = u64_from_le_bytes(slice_subrange(bytes, 0, 8));
        let count = u32_from_le_bytes(slice_subrange(bytes, 8, 12));
        let mut list: Vec<ItemStruct> = Vec::new();
        let mut pos: usize = HEADER_LEN;
        let mut i: u32 = 0;
        while i < count
            invariant
                HEADER_LEN <= pos <= bytes@.len() <= CAPACITY,
                list@.len() == i,
                i <= count,
                bytes@.subrange(HEADER_LEN as int, pos as int) == entries_layout(list@),
                pos == HEADER_LEN + entries_len(list@),
                found == (exists|a: BaseAccount| a.wf() && a.layout() == bytes@),
                found ==> {
                    &&& count == t.len()
                    &&& bytes@.subrange(12, bytes@.len() as int) == entries_layout(t)
                    &&& bytes@.len() == HEADER_LEN + entries_len(t)
                    &&& entries_layout(t).len() == entries_len(t)
                    &&& pos == HEADER_LEN + entries_len(t.take(i as int))
                },
            decreases count - i,
        {
            proof {
                if found {
                    let e0 = entries_len(t.take(i as int)) as int;
                    let e1 = entries_len(t.take(i + 1)) as int;
                    lemma_entry_in_layout(t, i as int);
                    lemma_entries_len_prefix(t, i + 1);
                    assert(bytes@.subrange(12, bytes@.len() as int).subrange(e0, e1) =~= bytes@.subrange(
                        12 + e0,
                        12 + e1,
                    ));
                    assert(entry_at(bytes@, pos as int, t[i as int]));
                }
            }
            let (item, next) = match read_entry(bytes, pos) {
                Some(found_entry) => found_entry,
                None => {
                    return None;
                },
            };
            proof {
                lemma_entries_len_push(list@, item);
                assert(list@.push(item).drop_last() =~= list@);
                assert(bytes@.subrange(HEADER_LEN as int, next as int) =~= bytes@.subrange(
                    HEADER_LEN as int,
                    pos as int,
                ) + bytes@.subrange(pos as int, next as int));
            }
            list.push(item);
            pos = next;
            i = i + 1;
        }
        proof {
            if found {
                assert(t.take(i as int) =~= t);
            }
        }
        if pos != bytes.len() || total != count as u64 {
            return None;
        }
        proof {
            assert(bytes@ =~= bytes@.subrange(0, 8) + bytes@.subrange(8, 12) + bytes@.subrange(
                12,
                bytes@.len() as int,
            ));
        }
        Some(BaseAccount { total_gifs: total, gif_list: list })
    }
}

/// Within the layout of a sequence of entries, the bytes of entry `i` start
/// where those of the entries before it end.
pub proof fn lemma_entry_in_layout(s: Seq<ItemStruct>, i: int)
    requires
        0 <= i < s.len(),
    ensures
        entries_layout(s).subrange(entries_len(s.take(i)) as int, entries_len(s.take(i + 1)) as int)
            == entry_layout(s[i]),
        entries_len(s.take(i + 1)) <= entries_layout(s).len(),
{
    lemma_layout_prefix(s, i + 1);
    lemma_entries_layout_len(s.take(i));
    lemma_entries_layout_len(s.take(i + 1));
    lemma_entries_layout_len(s);
    assert(s.take(i + 1).drop_last() =~= s.take(i));
    let whole = entries_layout(s);
    let head = entries_layout(s.take(i + 1));
    assert(head == entries_layout(s.take(i)) + entry_layout(s[i]));
    assert(whole.subrange(entries_len(s.take(i)) as int, entries_len(s.take(i + 1)) as int) =~= head.subrange(
        entries_len(s.take(i)) as int,
        entries_len(s.take(i + 1)) as int,
    ));
    assert(head.subrange(entries_len(s.take(i)) as int, entries_len(s.take(i + 1)) as int) =~= entry_layout(s[i]));
}

/// The layout of a prefix of entries is a prefix of the layout of the whole.
pub proof fn lemma_layout_prefix(s: Seq<ItemStruct>, k: int)
    requires
        0 <= k <= s.len(),
    ensures
        entries_layout(s.take(k)).len() <= entries_layout(s).len(),
        entries_layout(s).subrange(0, entries_layout(s.take(k)).len() as int) == entries_layout(s.take(k)),
    decreases s.len(),
{
    if k == s.len() {
        assert(s.take(k) =~= s);
        assert(entries_layout(s).subrange(0, entries_layout(s).len() as int) =~= entries_layout(s));
    } else {
        assert(s.drop_last().take(k) =~= s.take(k));
        lemma_layout_prefix(s.drop_last(), k);
        let a = entries_layout(s.drop_last());
        let b = entries_layout(s.take(k));
        assert(entries_layout(s).subrange(0, b.len() as int) =~= a.subrange(0, b.len() as int));
    }
}

/// Two entries that hold the same link text, submitter and counters.
pub open spec fn same_entry(x: ItemStruct, y: ItemStruct) -> bool {
    &&& x.gif_link@ == y.gif_link@
    &&& x.user_address == y.user_address
    &&& x.gmi_votes == y.gmi_votes
    &&& x.ngmi_votes == y.ngmi_votes
}

/// Bytes that begin with the layouts of two entries determine them alike.
pub proof fn lemma_entry_at_unique(bytes: Seq<u8>, pos: int, x: ItemStruct, y: ItemStruct)
    requires
        0 <= pos,
        entry_at(bytes, pos, x),
        entry_at(bytes, pos, y),
        link_bytes(x).len() <= CAPACITY,
        link_bytes(y).len() <= CAPACITY,
    ensures
        same_entry(x, y),
        entry_len(x) == entry_len(y),
{
    lemma_auto_spec_u32_to_from_le_bytes();
    lemma_auto_spec_u64_to_from_le_bytes();
    let lx = link_bytes(x).len() as int;
    let ly = link_bytes(y).len() as int;
    let ex = entry_layout(x);
    let ey = entry_layout(y);
    assert(ex.subrange(0, 4) =~= spec_u32_to_le_bytes(lx as u32));
    assert(ey.subrange(0, 4) =~= spec_u32_to_le_bytes(ly as u32));
    assert(ex.subrange(0, 4) =~= bytes.subrange(pos, pos + 4));
    assert(ey.subrange(0, 4) =~= bytes.subrange(pos, pos + 4));
    assert(lx == ly);
    assert(ex =~= ey);
    assert(ex.subrange(4, 4 + lx) =~= link_bytes(x));
    assert(ey.subrange(4, 4 + lx) =~= link_bytes(y));
    encode_utf8_decode_utf8(x.gif_link@);
    encode_utf8_decode_utf8(y.gif_link@);
    assert(ex.subrange(4 + lx, 36 + lx) =~= x.user_address.bytes@);
    assert(ey.subrange(4 + lx, 36 + lx) =~= y.user_address.bytes@);
    assert(x.user_address.bytes == y.user_address.bytes);
    assert(ex.subrange(36 + lx, 44 + lx) =~= spec_u64_to_le_bytes(x.gmi_votes));
    assert(ey.subrange(36 + lx, 44 + lx) =~= spec_u64_to_le_bytes(y.gmi_votes));
    assert(ex.subrange(44 + lx, 52 + lx) =~= spec_u64_to_le_bytes(x.ngmi_votes));
    assert(ey.subrange(44 + lx, 52 + lx) =~= spec_u64_to_le_bytes(y.ngmi_votes));
}

/// Two sequences of entries of equal count whose layouts agree hold the same
/// entries, as long as each fits the storage area.
pub proof fn lemma_entries_layout_unique(s: Seq<ItemStruct>, u: Seq<ItemStruct>, k: int)
    requires
        s.len() == u.len(),
        0 <= k <= s.len(),
        entries_layout(s) == entries_layout(u),
        entries_len(s) <= CAPACITY,
        entries_len(u) <= CAPACITY,
    ensures
        entries_len(s.take(k)) == entries_len(u.take(k)),
        forall|j: int| 0 <= j < k ==> same_entry(#[trigger] s[j], u[j]),
    decreases k,
{
    if k > 0 {
        let i = k - 1;
        lemma_entries_layout_unique(s, u, i);
        lemma_entry_in_layout(s, i);
        lemma_entry_in_layout(u, i);
        lemma_entries_len_prefix(s, k);
        lemma_entries_len_prefix(u, k);
        lemma_entries_len_lower(s);
        lemma_entries_len_lower(u);
        lemma_one_entry_len(s, i);
        lemma_one_entry_len(u, i);
        let whole = entries_layout(s);
        let e0 = entries_len(s.take(i)) as int;
        let ex = e0 + entry_len(s[i]);
        let ey = e0 + entry_len(u[i]);
        assert(whole.subrange(e0, ex) =~= entry_layout(s[i]));
        assert(whole.subrange(e0, ey) =~= entry_layout(u[i]));
        lemma_entry_at_unique(whole, e0, s[i], u[i]);
    }
}

/// One entry takes no more bytes than the whole sequence it stands in.
proof fn lemma_one_entry_len(s: Seq<ItemStruct>, i: int)
    requires
        0 <= i < s.len(),
    ensures
        entry_len(s[i]) <= entries_len(s),
{
    lemma_entries_len_prefix(s, i + 1);
}

/// A prefix of a sequence of entries takes no more bytes than the whole.
pub proof fn lemma_entries_len_prefix(s: Seq<ItemStruct>, i: int)
    requires
        0 <= i <= s.len(),
    ensures
        entries_len(s.take(i)) <= entries_len(s),
        i > 0 ==> entries_len(s.take(i)) == entries_len(s.take(i - 1)) + entry_len(s[i - 1]),
    decreases s.len(),
{
    if i > 0 {
        assert(s.take(i).drop_last() =~= s.take(i - 1));
    }
    if i < s.len() {
        assert(s.drop_last().take(i) =~= s.take(i));
        lemma_entries_len_prefix(s.drop_last(), i);
    } else {
        assert(s.take(i) =~= s);
    }
}

/// The layout of a sequence of entries has the length that `entries_len` gives.
pub proof fn lemma_entries_layout_len(s: Seq<ItemStruct>)
    ensures
        entries_layout(s).len() == entries_len(s),
    decreases s.len(),
{
    lemma_auto_spec_u32_to_from_le_bytes();
    lemma_auto_spec_u64_to_from_le_bytes();
    if s.len() > 0 {
        lemma_entries_layout_len(s.drop_last());
    }
}

/// Appending an entry adds its own length to the layout.
pub proof fn lemma_entries_len_push(s: Seq<ItemStruct>, x: ItemStruct)
    ensures
        entries_len(s.push(x)) == entries_len(s) + entry_len(x),
{
    assert(s.push(x).drop_last() =~= s);
}

/// Replacing an entry by one of the same length keeps the layout's length.
pub proof fn lemma_entries_len_update(s: Seq<ItemStruct>, i: int, x: ItemStruct)
    requires
        0 <= i < s.len(),
        entry_len(x) == entry_len(s[i]),
    ensures
        entries_len(s.update(i, x)) == entries_len(s),
    decreases s.len(),
{
    if i == s.len() - 1 {
        assert(s.update(i, x).drop_last() =~= s.drop_last());
    } else {
        assert(s.update(i, x).drop_last() =~= s.drop_last().update(i, x));
        lemma_entries_len_update(s.drop_last(), i, x);
    }
}

/// Every entry takes at least `ENTRY_FIXED_LEN` bytes.
pub proof fn lemma_entries_len_lower(s: Seq<ItemStruct>)
    ensures
        entries_len(s) >= ENTRY_FIXED_LEN * s.len(),
    decreases s.len(),
{
    if s.len() > 0 {
        lemma_entries_len_lower(s.drop_last());
    }
}

} // verus!

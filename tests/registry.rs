use wagmiwall::{
    add_gif, gmi_vote, ngmi_vote, start_stuff_off, vote, BaseAccount, Direction, Identity,
    WallError, CAPACITY, ENTRY_FIXED_LEN, HEADER_LEN,
};

fn user(b: u8) -> Identity {
    Identity { bytes: [b; 32] }
}

fn fresh_slot() -> Option<BaseAccount> {
    let mut slot = None;
    assert_eq!(start_stuff_off(&mut slot), Ok(()));
    slot
}

#[test]
fn initialize_creates_empty_record() {
    let slot = fresh_slot();
    let a = slot.as_ref().unwrap();
    assert_eq!(a.total_gifs, 0);
    assert!(a.gif_list.is_empty());
}

#[test]
fn initialize_twice_fails_and_keeps_entries() {
    let mut slot = fresh_slot();
    assert_eq!(add_gif(&mut slot, "http://a.gif".to_string(), user(1)), Ok(()));
    assert_eq!(start_stuff_off(&mut slot), Err(WallError::AlreadyInitialized));
    let a = slot.as_ref().unwrap();
    assert_eq!(a.total_gifs, 1);
    assert_eq!(a.gif_list.len(), 1);
    assert_eq!(a.gif_list[0].gif_link, "http://a.gif");
    assert_eq!(a.gif_list[0].user_address, user(1));
}

#[test]
fn append_without_record_fails() {
    let mut slot: Option<BaseAccount> = None;
    assert_eq!(
        add_gif(&mut slot, "http://a.gif".to_string(), user(1)),
        Err(WallError::RegistryNotFound)
    );
    assert!(slot.is_none());
}

#[test]
fn vote_without_record_fails() {
    let mut slot: Option<BaseAccount> = None;
    assert_eq!(gmi_vote(&mut slot, 0), Err(WallError::RegistryNotFound));
    assert_eq!(ngmi_vote(&mut slot, 0), Err(WallError::RegistryNotFound));
    assert!(slot.is_none());
}

#[test]
fn appends_count_and_keep_content() {
    let mut slot = fresh_slot();
    let links = ["http://x.gif", "", "http://z.gif", "ünïcødé"];
    for (k, l) in links.iter().enumerate() {
        assert_eq!(add_gif(&mut slot, l.to_string(), user(k as u8)), Ok(()));
        let a = slot.as_ref().unwrap();
        assert_eq!(a.total_gifs, (k + 1) as u64);
        assert_eq!(a.gif_list.len(), k + 1);
    }
    let a = slot.as_ref().unwrap();
    for (k, l) in links.iter().enumerate() {
        assert_eq!(a.gif_list[k].gif_link, *l);
        assert_eq!(a.gif_list[k].user_address, user(k as u8));
        assert_eq!(a.gif_list[k].gmi_votes, 0);
        assert_eq!(a.gif_list[k].ngmi_votes, 0);
    }
}

#[test]
fn vote_in_range_changes_one_counter() {
    let mut slot = fresh_slot();
    add_gif(&mut slot, "http://a.gif".to_string(), user(1)).unwrap();
    add_gif(&mut slot, "http://b.gif".to_string(), user(2)).unwrap();
    add_gif(&mut slot, "http://c.gif".to_string(), user(3)).unwrap();
    assert_eq!(vote(&mut slot, 1, Direction::Down), Ok(()));
    let a = slot.as_ref().unwrap();
    assert_eq!((a.gif_list[0].gmi_votes, a.gif_list[0].ngmi_votes), (0, 0));
    assert_eq!((a.gif_list[1].gmi_votes, a.gif_list[1].ngmi_votes), (0, 1));
    assert_eq!((a.gif_list[2].gmi_votes, a.gif_list[2].ngmi_votes), (0, 0));
    assert_eq!(a.gif_list[1].gif_link, "http://b.gif");
    assert_eq!(a.gif_list[1].user_address, user(2));
    assert_eq!(a.total_gifs, 3);
    assert_eq!(vote(&mut slot, 2, Direction::Up), Ok(()));
    assert_eq!(vote(&mut slot, 2, Direction::Up), Ok(()));
    let a = slot.as_ref().unwrap();
    assert_eq!((a.gif_list[2].gmi_votes, a.gif_list[2].ngmi_votes), (2, 0));
    assert_eq!((a.gif_list[1].gmi_votes, a.gif_list[1].ngmi_votes), (0, 1));
}

#[test]
fn vote_out_of_range_is_ignored() {
    let mut slot = fresh_slot();
    assert_eq!(gmi_vote(&mut slot, 0), Ok(()));
    assert_eq!(ngmi_vote(&mut slot, u32::MAX), Ok(()));
    assert_eq!(slot.as_ref().unwrap().total_gifs, 0);
    assert!(slot.as_ref().unwrap().gif_list.is_empty());
    add_gif(&mut slot, "http://a.gif".to_string(), user(1)).unwrap();
    assert_eq!(gmi_vote(&mut slot, 1), Ok(()));
    let a = slot.as_ref().unwrap();
    assert_eq!(a.total_gifs, 1);
    assert_eq!((a.gif_list[0].gmi_votes, a.gif_list[0].ngmi_votes), (0, 0));
}

#[test]
fn scenario_two_links_and_votes() {
    let user_a = user(0xaa);
    let user_b = user(0xbb);
    let mut slot = fresh_slot();
    assert_eq!(add_gif(&mut slot, "http://a.gif".to_string(), user_a), Ok(()));
    assert_eq!(add_gif(&mut slot, "http://b.gif".to_string(), user_b), Ok(()));
    assert_eq!(gmi_vote(&mut slot, 0), Ok(()));
    assert_eq!(ngmi_vote(&mut slot, 0), Ok(()));
    let before = slot.as_ref().unwrap().serialize();
    assert_eq!(gmi_vote(&mut slot, 5), Ok(()));
    let a = slot.as_ref().unwrap();
    assert_eq!(a.serialize(), before);
    assert_eq!(a.total_gifs, 2);
    assert_eq!(a.gif_list[0].gif_link, "http://a.gif");
    assert_eq!(a.gif_list[0].user_address, user_a);
    assert_eq!((a.gif_list[0].gmi_votes, a.gif_list[0].ngmi_votes), (1, 1));
    assert_eq!(a.gif_list[1].gif_link, "http://b.gif");
    assert_eq!(a.gif_list[1].user_address, user_b);
    assert_eq!((a.gif_list[1].gmi_votes, a.gif_list[1].ngmi_votes), (0, 0));
}

#[test]
fn append_until_capacity_fails_on_overflowing_entry() {
    let mut slot = fresh_slot();
    // 48 bytes of text make each entry take 100 bytes.
    let link = "x".repeat(48);
    let mut appended = 0usize;
    loop {
        let r = add_gif(&mut slot, link.clone(), user(7));
        if r.is_err() {
            assert_eq!(r, Err(WallError::CapacityExceeded));
            break;
        }
        appended += 1;
    }
    assert_eq!(appended, (CAPACITY - HEADER_LEN) / 100);
    let a = slot.as_ref().unwrap();
    assert_eq!(a.total_gifs as usize, appended);
    assert_eq!(a.serialized_size(), HEADER_LEN + 100 * appended);
    assert!(a.gif_list.iter().all(|e| e.gif_link == link && e.user_address == user(7)));
    // A shorter link still fits in what is left; one byte more does not.
    let left = CAPACITY - a.serialized_size();
    let fits = "y".repeat(left - ENTRY_FIXED_LEN);
    let too_long = "y".repeat(left - ENTRY_FIXED_LEN + 1);
    assert_eq!(add_gif(&mut slot, too_long, user(8)), Err(WallError::CapacityExceeded));
    assert_eq!(slot.as_ref().unwrap().total_gifs as usize, appended);
    assert_eq!(add_gif(&mut slot, fits, user(8)), Ok(()));
    assert_eq!(slot.as_ref().unwrap().serialized_size(), CAPACITY);
    assert_eq!(
        add_gif(&mut slot, String::new(), user(9)),
        Err(WallError::CapacityExceeded)
    );
    assert_eq!(slot.as_ref().unwrap().total_gifs as usize, appended + 1);
}

#[test]
fn capacity_counts_utf8_bytes() {
    let mut slot = fresh_slot();
    // "é" takes two bytes.
    add_gif(&mut slot, "é".to_string(), user(1)).unwrap();
    assert_eq!(
        slot.as_ref().unwrap().serialized_size(),
        HEADER_LEN + ENTRY_FIXED_LEN + 2
    );
}

#[test]
fn serialize_exact_bytes() {
    let mut slot = fresh_slot();
    assert_eq!(
        slot.as_ref().unwrap().serialize(),
        vec![0, 0, 0, 0, 0, 0, 0, 0, 0, 0, 0, 0]
    );
    add_gif(&mut slot, "ab".to_string(), user(3)).unwrap();
    gmi_vote(&mut slot, 0).unwrap();
    ngmi_vote(&mut slot, 0).unwrap();
    ngmi_vote(&mut slot, 0).unwrap();
    let bytes = slot.as_ref().unwrap().serialize();
    let mut expected = vec![1, 0, 0, 0, 0, 0, 0, 0, 1, 0, 0, 0, 2, 0, 0, 0, b'a', b'b'];
    expected.extend_from_slice(&[3u8; 32]);
    expected.extend_from_slice(&[1, 0, 0, 0, 0, 0, 0, 0]);
    expected.extend_from_slice(&[2, 0, 0, 0, 0, 0, 0, 0]);
    assert_eq!(bytes, expected);
    assert_eq!(bytes.len(), slot.as_ref().unwrap().serialized_size());
}

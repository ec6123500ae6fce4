use wagmiwall::{add_gif, gmi_vote, ngmi_vote, start_stuff_off, BaseAccount, Identity, ItemStruct};

fn sample() -> BaseAccount {
    let mut slot = None;
    start_stuff_off(&mut slot).unwrap();
    add_gif(&mut slot, "http://a.gif".to_string(), Identity { bytes: [1; 32] }).unwrap();
    add_gif(&mut slot, "héllo→✓".to_string(), Identity { bytes: [2; 32] }).unwrap();
    gmi_vote(&mut slot, 1).unwrap();
    ngmi_vote(&mut slot, 0).unwrap();
    ngmi_vote(&mut slot, 0).unwrap();
    slot.unwrap()
}

fn same(a: &BaseAccount, b: &BaseAccount) -> bool {
    a.total_gifs == b.total_gifs
        && a.gif_list.len() == b.gif_list.len()
        && a.gif_list.iter().zip(b.gif_list.iter()).all(|(x, y)| {
            x.gif_link == y.gif_link
                && x.user_address == y.user_address
                && x.gmi_votes == y.gmi_votes
                && x.ngmi_votes == y.ngmi_votes
        })
}

#[test]
fn round_trip_reconstructs_record() {
    let a = sample();
    let bytes = a.serialize();
    let b = BaseAccount::deserialize(&bytes).expect("layout of a record");
    assert!(same(&a, &b));
    assert_eq!(b.gif_list[1].gif_link, "héllo→✓");
    assert_eq!(b.gif_list[1].gmi_votes, 1);
    assert_eq!(b.gif_list[0].ngmi_votes, 2);
    assert_eq!(b.serialize(), bytes);
}

#[test]
fn round_trip_empty_record() {
    let mut slot = None;
    start_stuff_off(&mut slot).unwrap();
    let a = slot.unwrap();
    let b = BaseAccount::deserialize(&a.serialize()).unwrap();
    assert_eq!(b.total_gifs, 0);
    assert!(b.gif_list.is_empty());
}

#[test]
fn deserialize_rejects_truncated_and_trailing_bytes() {
    let bytes = sample().serialize();
    assert!(BaseAccount::deserialize(&bytes[..bytes.len() - 1]).is_none());
    assert!(BaseAccount::deserialize(&bytes[..11]).is_none());
    assert!(BaseAccount::deserialize(&[]).is_none());
    let mut longer = bytes.clone();
    longer.push(0);
    assert!(BaseAccount::deserialize(&longer).is_none());
}

#[test]
fn deserialize_rejects_invalid_utf8() {
    let mut bytes = sample().serialize();
    // The first link's text starts after the header and its length prefix.
    bytes[16] = 0xff;
    assert!(BaseAccount::deserialize(&bytes).is_none());
}

#[test]
fn deserialize_rejects_count_mismatch() {
    let mut bytes = sample().serialize();
    bytes[0] = 3;
    assert!(BaseAccount::deserialize(&bytes).is_none());
}

#[test]
fn deserialize_rejects_oversized_input() {
    let bytes = vec![0u8; wagmiwall::CAPACITY + 1];
    assert!(BaseAccount::deserialize(&bytes).is_none());
}

#[test]
fn well_formedness_check() {
    let a = sample();
    assert!(a.is_well_formed());
    assert!(a.fits_capacity());
    let wrong_count = BaseAccount { total_gifs: 5, gif_list: Vec::new() };
    assert!(!wrong_count.is_well_formed());
    assert!(wrong_count.fits_capacity());
    let big = BaseAccount {
        total_gifs: 1,
        gif_list: vec![ItemStruct {
            gif_link: "z".repeat(wagmiwall::CAPACITY),
            user_address: Identity { bytes: [0; 32] },
            gmi_votes: 0,
            ngmi_votes: 0,
        }],
    };
    assert!(!big.fits_capacity());
    assert!(!big.is_well_formed());
}

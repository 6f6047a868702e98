use stdbms::{DbError, Page, PageHeader, PAGE_CONTENT_SIZE};

#[test]
fn page_round_trip_keeps_name_and_payload() {
    let cases: Vec<(&str, Vec<u8>)> = vec![
        ("page1", b"1|Widget|19.99".to_vec()),
        ("", Vec::new()),
        ("exactly8", vec![7u8; 255]),
        ("\u{e9}t\u{e9}", vec![0u8, 1, 2, 0]),
    ];
    for (name, payload) in cases {
        let page = Page::new(name, &payload).unwrap();
        let bytes = page.to_bytes();
        assert_eq!(bytes.len(), 265);
        let loaded = Page::from_bytes(&bytes).unwrap();
        assert_eq!(loaded.get_name(), name);
        assert_eq!(loaded.get_content(), &payload[..]);
    }
}

#[test]
fn long_payload_keeps_first_255_bytes() {
    let payload: Vec<u8> = (0..300u32).map(|i| (i % 200) as u8).collect();
    let page = Page::new("big", &payload).unwrap();
    assert_eq!(page.get_content(), &payload[..255]);
    assert_eq!(page.content[255], 0xED);
}

#[test]
fn payload_of_256_bytes_is_cut() {
    let payload = vec![b'x'; 256];
    let page = Page::new("p", &payload).unwrap();
    assert_eq!(page.get_content().len(), PAGE_CONTENT_SIZE - 1);
}

#[test]
fn terminator_follows_payload_and_rest_is_zero() {
    let page = Page::new("p", b"abc").unwrap();
    assert_eq!(&page.content[..4], &[b'a', b'b', b'c', 0xED]);
    assert!(page.content[4..].iter().all(|&b| b == 0));
    assert_eq!(page.header.magic, 0xCA);
}

#[test]
fn name_longer_than_field_is_refused() {
    match Page::new("ninechars", b"x") {
        Err(DbError::InvalidInput { expected, found }) => {
            assert_eq!(expected, "ninechars");
            assert_eq!(found, 8);
        }
        _ => panic!("expected InvalidInput"),
    }
}

#[test]
fn page_bytes_follow_layout() {
    let page = Page::new("ab", b"hi").unwrap();
    let bytes = page.to_bytes();
    assert_eq!(bytes[0], 0xCA);
    assert_eq!(&bytes[1..9], &[b'a', b'b', 0, 0, 0, 0, 0, 0]);
    assert_eq!(&bytes[9..12], &[b'h', b'i', 0xED]);
}

#[test]
fn wrong_page_magic_is_reported() {
    let mut bytes = Page::new("p", b"data").unwrap().to_bytes();
    bytes[0] = 0xCC;
    assert_eq!(
        Page::from_bytes(&bytes).err(),
        Some(DbError::InvalidMagic { expected: 0xCA, found: 0xCC })
    );
    assert_eq!(
        Page::from_bytes(&[0x00]).err(),
        Some(DbError::InvalidMagic { expected: 0xCA, found: 0x00 })
    );
}

#[test]
fn short_page_data_is_refused() {
    let bytes = Page::new("p", b"data").unwrap().to_bytes();
    assert_eq!(Page::from_bytes(&bytes[..264]).err(), Some(DbError::UnexpectedEof));
    assert_eq!(Page::from_bytes(&[]).err(), Some(DbError::UnexpectedEof));
}

#[test]
fn trailing_bytes_after_page_are_ignored() {
    let mut bytes = Page::new("p", b"data").unwrap().to_bytes();
    bytes.extend_from_slice(&[1, 2, 3]);
    let loaded = Page::from_bytes(&bytes).unwrap();
    assert_eq!(loaded.get_content(), b"data");
}

#[test]
fn buffer_without_terminator_is_whole_content() {
    let page = Page {
        header: PageHeader { magic: 0xCA, name: [0u8; 8] },
        content: [b'z'; 256],
    };
    assert_eq!(page.get_content(), &[b'z'; 256][..]);
    assert_eq!(page.get_name(), "");
}

use stdbms::{DbError, Directory, DirectoryColumn, Page, COLUMN_FLOAT, COLUMN_INT, COLUMN_STRING};

fn product_columns() -> Vec<DirectoryColumn> {
    vec![
        DirectoryColumn::new_int("id"),
        DirectoryColumn::new_string("name"),
        DirectoryColumn::new_float("price"),
    ]
}

#[test]
fn new_directory_is_empty() {
    let dir = Directory::new("products", None);
    assert_eq!(dir.header.magic, 0xCC);
    assert_eq!(dir.header.page_count, 0);
    assert_eq!(dir.header.column_count, 0);
    assert!(dir.columns.is_empty());
    assert!(dir.get_page_names().is_empty());
    assert_eq!(dir.get_name(), "products");
}

#[test]
fn long_directory_name_is_cut() {
    let dir = Directory::new("inventory", None);
    assert_eq!(dir.get_name(), "inventor");
}

#[test]
fn capacity_is_32_pages() {
    let mut dir = Directory::new("d", None);
    let page = Page::new("p", b"x").unwrap();
    for i in 0..32u8 {
        assert!(dir.add_page(&page).is_ok());
        assert_eq!(dir.header.page_count, i + 1);
        assert_eq!(dir.names.len(), (i + 1) as usize);
    }
    assert_eq!(dir.add_page(&page).err(), Some(DbError::InvalidPageCount(32)));
    assert_eq!(dir.header.page_count, 32);
    assert_eq!(dir.names.len(), 32);
}

#[test]
fn columns_keep_tags_and_names() {
    let cols = product_columns();
    assert_eq!(cols[0].type_, COLUMN_INT);
    assert_eq!(cols[1].type_, COLUMN_STRING);
    assert_eq!(cols[2].type_, COLUMN_FLOAT);
    assert_eq!(cols[2].get_name(), "price");
    assert_eq!(DirectoryColumn::new_int("identifier").get_name(), "identifi");
}

#[test]
fn schema_survives_encoding() {
    let dir = Directory::new("products", Some(product_columns()));
    let loaded = Directory::from_bytes(&dir.to_bytes()).unwrap();
    assert_eq!(loaded.header.column_count, 3);
    let names: Vec<String> = loaded.columns.iter().map(|c| c.get_name()).collect();
    assert_eq!(names, vec!["id", "name", "price"]);
    let tags: Vec<u8> = loaded.columns.iter().map(|c| c.type_).collect();
    assert_eq!(tags, vec![COLUMN_INT, COLUMN_STRING, COLUMN_FLOAT]);
}

#[test]
fn products_scenario() {
    let mut dir = Directory::new("products", Some(product_columns()));
    let page1 = Page::new("page1", b"1|Widget|19.99").unwrap();
    let page2 = Page::new("page2", b"2|Gadget|29.99").unwrap();
    dir.add_page(&page1).unwrap();
    dir.add_page(&page2).unwrap();
    let dir_bytes = dir.to_bytes();
    let page1_bytes = page1.to_bytes();
    let _page2_bytes = page2.to_bytes();
    let loaded_dir = Directory::from_bytes(&dir_bytes).unwrap();
    let loaded_page = Page::from_bytes(&page1_bytes).unwrap();
    assert_eq!(loaded_dir.get_name(), "products");
    assert_eq!(loaded_dir.get_page_names(), vec!["page1", "page2"]);
    assert_eq!(String::from_utf8_lossy(loaded_page.get_content()), "1|Widget|19.99");
}

#[test]
fn directory_bytes_follow_layout() {
    let mut dir = Directory::new("d", Some(vec![DirectoryColumn::new_float("f")]));
    dir.add_page(&Page::new("pg", b"").unwrap()).unwrap();
    let bytes = dir.to_bytes();
    let mut expected = vec![0xCC, b'd', 0, 0, 0, 0, 0, 0, 0, 1, 1];
    expected.extend_from_slice(&[0x01, b'f', 0, 0, 0, 0, 0, 0, 0]);
    expected.extend_from_slice(&[b'p', b'g', 0, 0, 0, 0, 0, 0]);
    assert_eq!(bytes, expected);
}

#[test]
fn wrong_directory_magic_is_reported() {
    let mut bytes = Directory::new("d", Some(product_columns())).to_bytes();
    bytes[0] = 0xCA;
    assert_eq!(
        Directory::from_bytes(&bytes).err(),
        Some(DbError::InvalidMagic { expected: 0xCC, found: 0xCA })
    );
}

#[test]
fn short_directory_data_is_refused() {
    let mut dir = Directory::new("d", Some(product_columns()));
    dir.add_page(&Page::new("p", b"x").unwrap()).unwrap();
    let bytes = dir.to_bytes();
    assert_eq!(Directory::from_bytes(&bytes[..bytes.len() - 1]).err(), Some(DbError::UnexpectedEof));
    assert_eq!(Directory::from_bytes(&bytes[..10]).err(), Some(DbError::UnexpectedEof));
    let crafted = [0xCC, 0, 0, 0, 0, 0, 0, 0, 0, 0, 255];
    assert_eq!(Directory::from_bytes(&crafted).err(), Some(DbError::UnexpectedEof));
}

#[test]
fn loaded_directory_accepts_more_pages() {
    let mut dir = Directory::new("d", None);
    dir.add_page(&Page::new("a", b"").unwrap()).unwrap();
    let mut loaded = Directory::from_bytes(&dir.to_bytes()).unwrap();
    loaded.add_page(&Page::new("b", b"").unwrap()).unwrap();
    assert_eq!(loaded.get_page_names(), vec!["a", "b"]);
    assert_eq!(loaded.header.page_count, 2);
}

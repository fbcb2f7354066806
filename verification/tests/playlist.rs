use gatefold::playlist::{
    decode_entities, decode_entity, description_text, next_rootlist_page, picture,
    rootlist_entry, ListAttributes, PictureSize, RootlistMeta,
};

fn size(target: &str, url: &str) -> PictureSize {
    PictureSize {
        target_name: target.into(),
        url: url.into(),
    }
}

#[test]
fn descriptions_lose_tags_and_extra_whitespace() {
    assert_eq!(
        description_text("<p>Songs for <b>late</b> nights</p><p>and   early\nmornings</p>"),
        "Songs for late nights and early mornings"
    );
    assert_eq!(description_text("one<br/>two<BR>three"), "one two three");
    assert_eq!(description_text("  &lt;3 &amp; more  "), "<3 & more");
    assert_eq!(description_text(""), "");
}

#[test]
fn description_text_has_no_doubled_or_outer_spaces() {
    let text = description_text("  a <br>  <br> b\t\tc &nbsp; d ");
    assert_eq!(text, "a b c d");
    assert!(!text.contains("  "));
    assert!(!text.starts_with(' ') && !text.ends_with(' '));
}

#[test]
fn entities_named_and_numeric() {
    assert_eq!(decode_entity("amp"), Some('&'));
    assert_eq!(decode_entity("#39"), Some('\''));
    assert_eq!(decode_entity("#x27"), Some('\''));
    assert_eq!(decode_entity("#X2026"), Some('…'));
    assert_eq!(decode_entity("hellip"), Some('…'));
    assert_eq!(decode_entity("#xD800"), None);
    assert_eq!(decode_entity("bogus"), None);
    assert_eq!(decode_entity("#"), None);
}

#[test]
fn unknown_or_unterminated_entities_stay() {
    assert_eq!(decode_entities("Tom &amp; Jerry"), "Tom & Jerry");
    assert_eq!(decode_entities("a &bogus; b"), "a &bogus; b");
    assert_eq!(decode_entities("fish & chips"), "fish & chips");
    assert_eq!(decode_entities("&verylongname;"), "&verylongname;");
    assert_eq!(decode_entities("no entities"), "no entities");
}

#[test]
fn pictures_prefer_raw_ids_then_default_then_first() {
    let raw = ListAttributes {
        name: "Mix".into(),
        picture: vec![0xab, 0x01, 0xff],
        picture_size: vec![size("default", "https://d")],
    };
    assert_eq!(picture(&raw).as_deref(), Some("ab01ff"));
    let sized = ListAttributes {
        name: "Mix".into(),
        picture: Vec::new(),
        picture_size: vec![size("small", "https://s"), size("default", "https://d")],
    };
    assert_eq!(picture(&sized).as_deref(), Some("https://d"));
    let first = ListAttributes {
        name: "Mix".into(),
        picture: Vec::new(),
        picture_size: vec![size("small", "https://s"), size("large", "https://l")],
    };
    assert_eq!(picture(&first).as_deref(), Some("https://s"));
    let none = ListAttributes {
        name: "Mix".into(),
        picture: Vec::new(),
        picture_size: Vec::new(),
    };
    assert_eq!(picture(&none), None);
}

#[test]
fn library_entries_from_listing_meta() {
    let meta = RootlistMeta {
        owner_username: "someone".into(),
        length: -3,
        attributes: ListAttributes {
            name: "Road trip".into(),
            picture: vec![1, 2],
            picture_size: Vec::new(),
        },
    };
    let entry = rootlist_entry("spotify:playlist:1".into(), Some(&meta));
    assert_eq!(entry.name, "Road trip");
    assert_eq!(entry.owner, "someone");
    assert_eq!(entry.length, 0);
    assert_eq!(entry.picture.as_deref(), Some("0102"));
    let bare = rootlist_entry("spotify:playlist:2".into(), None);
    assert_eq!(bare.uri, "spotify:playlist:2");
    assert_eq!(bare.name, "");
    assert_eq!(bare.picture, None);
}

#[test]
fn library_listing_pages() {
    assert_eq!(next_rootlist_page(0, 120, 300), Some(120));
    assert_eq!(next_rootlist_page(240, 60, 300), None);
    assert_eq!(next_rootlist_page(120, 120, 240), None);
    assert_eq!(next_rootlist_page(0, 120, -1), None);
}

#[test]
fn picture_ids_read_back_as_their_bytes() {
    let bytes = vec![0x00, 0x7f, 0x80, 0xff, 0x10];
    let attributes = ListAttributes {
        name: "x".into(),
        picture: bytes.clone(),
        picture_size: Vec::new(),
    };
    let id = picture(&attributes).unwrap();
    assert_eq!(id, "007f80ff10");
    assert_eq!(gatefold::images::decode(&id), Ok(bytes));
}

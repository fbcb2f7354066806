use gatefold::images::{decode, file_name, image_source, key, url_key, ImageSource, MalformedImageId};

#[test]
fn picture_ids_are_their_own_keys() {
    assert_eq!(key("ab67616d0000b273"), "ab67616d0000b273");
    assert_eq!(file_name("ab67616d0000b273"), "ab67616d0000b273.jpg");
}

#[test]
fn urls_are_keyed_by_their_hash() {
    let first = key("https://i.scdn.co/image/one");
    let second = key("https://i.scdn.co/image/two");
    assert!(first.starts_with("url-"));
    assert_eq!(first.len(), 20);
    assert!(first[4..].chars().all(|c| c.is_ascii_hexdigit() && !c.is_ascii_uppercase()));
    assert_ne!(first, second);
    assert_eq!(first, key("https://i.scdn.co/image/one"));
    assert_ne!(first, "https://i.scdn.co/image/one");
}

#[test]
fn hex_ids_decode_to_bytes() {
    assert_eq!(decode("ab01FF"), Ok(vec![0xab, 0x01, 0xff]));
    assert_eq!(decode(""), Ok(Vec::new()));
    assert_eq!(decode("+f0a"), Ok(vec![0x0f, 0x0a]));
}

#[test]
fn malformed_ids_are_refused() {
    assert_eq!(decode("abc"), Err(MalformedImageId));
    assert_eq!(decode("zz"), Err(MalformedImageId));
    assert_eq!(decode("-1"), Err(MalformedImageId));
    assert_eq!(decode("é0"), Err(MalformedImageId));
}

#[test]
fn url_keys_spell_the_hash() {
    assert_eq!(url_key(0xdead_beef), "url-00000000deadbeef");
    assert_eq!(url_key(u64::MAX), "url-ffffffffffffffff");
}

#[test]
fn images_come_from_urls_or_file_ids() {
    assert_eq!(
        image_source("https://i.scdn.co/image/x"),
        Ok(ImageSource::Url("https://i.scdn.co/image/x".into()))
    );
    assert_eq!(image_source("0aff"), Ok(ImageSource::FileId(vec![0x0a, 0xff])));
    assert_eq!(image_source("0af"), Err(MalformedImageId));
}

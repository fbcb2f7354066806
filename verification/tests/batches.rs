use gatefold::batches::{arrange, chunks, first_occurrences, metadata_batches, page, unique};

fn strings(items: &[&str]) -> Vec<String> {
    items.iter().map(|s| s.to_string()).collect()
}

#[test]
fn uris_are_asked_once_in_batches_of_fifty() {
    let mut uris: Vec<String> = (0..120).map(|i| format!("u{i}")).collect();
    uris.push("u3".into());
    let batches = metadata_batches(&uris);
    assert_eq!(batches.len(), 3);
    assert_eq!(batches[0].len(), 50);
    assert_eq!(batches[2].len(), 20);
    let joined: Vec<String> = batches.concat();
    assert_eq!(joined, unique(&uris));
    assert_eq!(joined.len(), 120);
}

#[test]
fn unique_keeps_first_occurrences() {
    let keys = strings(&["a", "b", "a", "c", "b"]);
    assert_eq!(unique(&keys), strings(&["a", "b", "c"]));
    assert_eq!(first_occurrences(&keys), vec![0, 1, 3]);
}

#[test]
fn chunks_cut_in_order() {
    assert_eq!(
        chunks(strings(&["a", "b", "c"]), 2),
        vec![strings(&["a", "b"]), strings(&["c"])]
    );
    assert!(chunks(Vec::new(), 5).is_empty());
}

#[test]
fn answers_come_back_in_the_order_asked() {
    let order = strings(&["x", "y", "z", "x"]);
    let found = strings(&["z", "x", "x2", "x"]);
    assert_eq!(arrange(&order, &found), vec![3, 0, 3]);
}

#[test]
fn pages_of_fifty() {
    let items: Vec<u32> = (0..120).collect();
    let (first, total, next) = page(items.clone(), None);
    assert_eq!(first.len(), 50);
    assert_eq!(total, 120);
    assert_eq!(next, Some(50));
    let (last, _, next) = page(items.clone(), Some(100));
    assert_eq!(last, (100..120).collect::<Vec<u32>>());
    assert_eq!(next, None);
    let (past, _, next) = page(items, Some(500));
    assert!(past.is_empty());
    assert_eq!(next, None);
}

#[test]
fn following_next_pages_reads_every_item_once() {
    let items: Vec<u32> = (0..137).collect();
    let mut seen = Vec::new();
    let mut offset = None;
    loop {
        let (chunk, _, next) = page(items.clone(), offset);
        seen.extend(chunk);
        match next {
            Some(n) => offset = Some(n),
            None => break,
        }
    }
    assert_eq!(seen, items);
}

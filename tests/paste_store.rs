use pastebin::memory::MemoryBackend;
use pastebin::paste_id::{is_alphabet_char, PasteId, BASE62};
use pastebin::service::{connection_url, index, paste_url, NOT_FOUND_TEXT, USAGE};
use pastebin::store::{
    exists_reply, get_reply, retrieve, store, store_reply, store_with_id, BackendFault,
    RetrieveOutcome, RetrieveStep, StoreError, DEFAULT_ID_LENGTH,
};

fn id(text: &str) -> PasteId {
    PasteId::parse(text).expect("valid identifier")
}

fn found(r: Result<RetrieveOutcome, StoreError>) -> Vec<u8> {
    match r {
        Ok(RetrieveOutcome::Found(v)) => v,
        other => panic!("expected a payload, got {:?}", other),
    }
}

#[test]
fn hello_world_round_trip() {
    let mut b = MemoryBackend::new();
    let stored = store(&mut b, DEFAULT_ID_LENGTH, b"hello world".to_vec()).unwrap();
    assert_eq!(stored.len(), 5);
    assert!(stored.as_string().chars().all(is_alphabet_char));
    assert_eq!(found(retrieve(&b, &stored)), b"hello world".to_vec());
    let never = id("zzzzz");
    if never.as_string() != stored.as_string() {
        assert!(matches!(retrieve(&b, &never), Ok(RetrieveOutcome::NotFound)));
    }
}

#[test]
fn stubbed_id_round_trip_and_absence() {
    let mut b = MemoryBackend::new();
    let r = store_with_id(&mut b, id("aZ3kq"), b"hello world".to_vec()).unwrap();
    assert_eq!(r.as_string(), "aZ3kq");
    assert_eq!(found(retrieve(&b, &id("aZ3kq"))), b"hello world".to_vec());
    assert!(matches!(retrieve(&b, &id("zzzzz")), Ok(RetrieveOutcome::NotFound)));
}

#[test]
fn round_trip_keeps_every_byte() {
    let mut b = MemoryBackend::new();
    let payload: Vec<u8> = (0..=255u8).collect();
    let stored = store(&mut b, 8, payload.clone()).unwrap();
    assert_eq!(found(retrieve(&b, &stored)), payload);
    let empty = store_with_id(&mut b, id("empty"), Vec::new()).unwrap();
    assert_eq!(found(retrieve(&b, &empty)), Vec::<u8>::new());
}

#[test]
fn empty_backend_finds_nothing() {
    let b = MemoryBackend::new();
    assert!(matches!(retrieve(&b, &id("abc12")), Ok(RetrieveOutcome::NotFound)));
}

#[test]
fn failing_backend_fails_store_and_retrieve() {
    let mut b = MemoryBackend::new();
    store_with_id(&mut b, id("keep1"), b"kept".to_vec()).unwrap();
    b.set_failing(true);
    assert_eq!(
        store(&mut b, 5, b"x".to_vec()).err(),
        Some(StoreError::BackendUnavailable)
    );
    assert_eq!(
        store_with_id(&mut b, id("keep1"), b"lost".to_vec()).err(),
        Some(StoreError::BackendUnavailable)
    );
    assert!(matches!(retrieve(&b, &id("keep1")), Err(StoreError::BackendUnavailable)));
    assert!(matches!(retrieve(&b, &id("other")), Err(StoreError::BackendUnavailable)));
    b.set_failing(false);
    assert_eq!(found(retrieve(&b, &id("keep1"))), b"kept".to_vec());
}

#[test]
fn second_store_under_same_id_wins() {
    let mut b = MemoryBackend::new();
    store_with_id(&mut b, id("same1"), b"first".to_vec()).unwrap();
    store_with_id(&mut b, id("same1"), b"second".to_vec()).unwrap();
    assert_eq!(found(retrieve(&b, &id("same1"))), b"second".to_vec());
}

#[test]
fn distinct_ids_do_not_mix() {
    let mut b = MemoryBackend::new();
    let names = ["aaaaa", "bbbbb", "ccccc", "ddddd", "eeeee", "fffff"];
    for (i, n) in names.iter().enumerate() {
        store_with_id(&mut b, id(n), format!("payload {}", i).into_bytes()).unwrap();
    }
    for (i, n) in names.iter().enumerate() {
        assert_eq!(found(retrieve(&b, &id(n))), format!("payload {}", i).into_bytes());
    }
}

#[test]
fn generated_ids_have_length_and_alphabet() {
    for len in [0usize, 1, 5, 8, 64] {
        let p = PasteId::new(len);
        assert_eq!(p.len(), len);
        assert_eq!(p.as_string().chars().count(), len);
        assert!(p.as_string().chars().all(|c| c.is_ascii_alphanumeric()));
    }
}

#[test]
fn draws_select_alphabet_positions() {
    let p = PasteId::from_draws(&vec![0, 10, 36, 61, 62, 73]);
    assert_eq!(p.as_string(), "0Aaz0B");
    assert_eq!(BASE62.chars().count(), 62);
}

#[test]
fn parse_accepts_only_alphanumerics() {
    assert_eq!(id("aZ3kq").as_string(), "aZ3kq");
    assert!(PasteId::parse("").is_some());
    assert!(PasteId::parse("ab-cd").is_none());
    assert!(PasteId::parse("ab cd").is_none());
    assert!(PasteId::parse("héllo").is_none());
    assert!(PasteId::parse("../etc").is_none());
}

#[test]
fn alphabet_membership() {
    assert!(is_alphabet_char('0'));
    assert!(is_alphabet_char('Z'));
    assert!(is_alphabet_char('z'));
    assert!(!is_alphabet_char('_'));
    assert!(!is_alphabet_char('é'));
}

#[test]
fn store_reply_maps_each_answer() {
    assert_eq!(store_reply(id("abcde"), Ok(())).unwrap().as_string(), "abcde");
    assert_eq!(
        store_reply(id("abcde"), Err(BackendFault::Unreachable)).err(),
        Some(StoreError::BackendUnavailable)
    );
    assert_eq!(
        store_reply(id("abcde"), Err(BackendFault::Rejected)).err(),
        Some(StoreError::WriteFailed)
    );
}

#[test]
fn exists_and_get_replies() {
    assert!(matches!(exists_reply(Ok(true)), RetrieveStep::Fetch));
    assert!(matches!(
        exists_reply(Ok(false)),
        RetrieveStep::Done(Ok(RetrieveOutcome::NotFound))
    ));
    assert!(matches!(
        exists_reply(Err(BackendFault::Unreachable)),
        RetrieveStep::Done(Err(StoreError::BackendUnavailable))
    ));
    assert_eq!(found(get_reply(Ok(b"abc".to_vec()))), b"abc".to_vec());
    assert!(matches!(
        get_reply(Err(BackendFault::Rejected)),
        Err(StoreError::BackendUnavailable)
    ));
}

#[test]
fn backend_contains_and_get() {
    let mut b = MemoryBackend::new();
    let k = String::from("k1");
    assert_eq!(b.contains(&k), Ok(false));
    assert_eq!(b.get(&k), Err(BackendFault::Rejected));
    assert_eq!(b.set(k.clone(), b"v".to_vec()), Ok(()));
    assert_eq!(b.contains(&k), Ok(true));
    assert_eq!(b.get(&k), Ok(b"v".to_vec()));
    b.set_failing(true);
    assert_eq!(b.contains(&k), Err(BackendFault::Unreachable));
    assert_eq!(b.set(k.clone(), b"w".to_vec()), Err(BackendFault::Unreachable));
    b.set_failing(false);
    assert_eq!(b.get(&k), Ok(b"v".to_vec()));
}

#[test]
fn texts_and_addresses() {
    assert_eq!(index(), USAGE);
    assert!(index().contains("GET /<id>"));
    assert_eq!(
        paste_url("https://paste.example", &id("aZ3kq")),
        "https://paste.example/aZ3kq"
    );
    assert_eq!(connection_url(None, None), "redis://:@localhost");
    assert_eq!(
        connection_url(Some("pw".to_string()), Some("db.internal".to_string())),
        "redis://:pw@db.internal"
    );
    assert_eq!(NOT_FOUND_TEXT, "No value stored here");
    assert_eq!(StoreError::BackendUnavailable.message(), "Backend unavailable");
    assert_eq!(StoreError::WriteFailed.message(), "Failed to store the paste");
}

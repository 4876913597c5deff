use thread_store::thread_id::ThreadId;
use uuid::Uuid;

#[test]
fn identifiers_are_written_as_hyphenated_uuids() {
    let id = ThreadId {
        value: 0x936d_a01f_9abd_4d9d_80c7_02af_85c8_22a8,
    };
    assert_eq!(id.to_text(), "936da01f-9abd-4d9d-80c7-02af85c822a8");
    assert_eq!(
        ThreadId { value: 203 }.to_text(),
        Uuid::from_u128(203).to_string()
    );
    assert_eq!(
        ThreadId { value: 203 }.to_text(),
        "00000000-0000-0000-0000-0000000000cb"
    );
}

#[test]
fn every_spelling_of_a_uuid_is_read() {
    let id = ThreadId {
        value: 0x936d_a01f_9abd_4d9d_80c7_02af_85c8_22a8,
    };
    for text in [
        "936da01f-9abd-4d9d-80c7-02af85c822a8",
        "936DA01F-9ABD-4D9D-80C7-02AF85C822A8",
        "936da01f9abd4d9d80c702af85c822a8",
        "{936da01f-9abd-4d9d-80c7-02af85c822a8}",
        "urn:uuid:936da01f-9abd-4d9d-80c7-02af85c822a8",
        "URN:uuid:936da01f-9abd-4d9d-80c7-02af85c822a8",
    ] {
        assert_eq!(ThreadId::from_string(text), Ok(id), "{text}");
    }
}

#[test]
fn other_texts_are_refused() {
    for text in [
        "",
        ".coordination",
        "936da01f-9abd-4d9d-80c7-02af85c822a",
        "936da01f-9abd-4d9d-80c7-02af85c822ag",
        "936da01f_9abd-4d9d-80c7-02af85c822a8",
        "{936da01f9abd4d9d80c702af85c822a8}",
        "urn-uuid:936da01f-9abd-4d9d-80c7-02af85c822a8",
        "\u{e9}36da01f9abd4d9d80c702af85c822a8",
    ] {
        assert!(ThreadId::from_string(text).is_err(), "{text}");
    }
}

#[test]
fn texts_spell_their_identifiers() {
    for value in [0, 1, 901, u128::MAX, 1 << 64] {
        let id = ThreadId { value };
        assert_eq!(ThreadId::from_string(&id.to_text()), Ok(id));
    }
    assert_ne!(
        ThreadId { value: 901 }.to_text(),
        ThreadId { value: 902 }.to_text()
    );
}

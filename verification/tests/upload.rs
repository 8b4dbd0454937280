use team_life::strategy::LengthMismatch;
use team_life::upload::{
    find_token, read_content, read_token, receive_upload, render_reply, same_bytes,
    upload_capacity, Upload,
};

const TOKEN: &[u8] = b"0123456789abcdefghijklmnopqrstuv";

fn names() -> Vec<Vec<u8>> {
    vec![
        b"ABCDEFGHIJKLMNOPQRSTUVWXYZ012345".to_vec(),
        TOKEN.to_vec(),
        b"short".to_vec(),
        TOKEN.to_vec(),
    ]
}

fn upload(content: &[u8]) -> Vec<u8> {
    let mut data = TOKEN.to_vec();
    data.extend_from_slice(content);
    data
}

#[test]
fn token_is_the_first_32_bytes() {
    assert_eq!(read_token(&upload(b"0110")), TOKEN.to_vec());
    assert_eq!(read_token(TOKEN), TOKEN.to_vec());
}

#[test]
fn token_of_a_short_upload_ends_in_zero_bytes() {
    let mut expected = b"abc".to_vec();
    expected.resize(32, 0);
    assert_eq!(read_token(b"abc"), expected);
    assert_eq!(read_token(b""), vec![0u8; 32]);
}

#[test]
fn content_is_what_follows_the_token() {
    assert_eq!(read_content(&upload(b"01\n10\n")), b"01\n10\n");
    assert_eq!(read_content(TOKEN), b"");
    assert_eq!(read_content(b"abc"), b"");
}

#[test]
fn same_bytes_compares_byte_for_byte() {
    assert!(same_bytes(b"abc", b"abc"));
    assert!(same_bytes(b"", b""));
    assert!(!same_bytes(b"abc", b"abd"));
    assert!(!same_bytes(b"abc", b"ab"));
    assert!(!same_bytes(b"\xe9", "\u{e9}".as_bytes()));
}

#[test]
fn find_token_gives_the_first_name_that_matches() {
    assert_eq!(find_token(&names(), TOKEN), Some(1));
    assert_eq!(find_token(&names(), b"short"), Some(2));
    assert_eq!(find_token(&names(), b"0123456789abcdefghijklmnopqrstuV"), None);
    assert_eq!(find_token(&Vec::new(), TOKEN), None);
}

#[test]
fn nothing_received_is_no_upload() {
    let outcome = receive_upload(4, &names(), b"");
    assert!(matches!(outcome, Upload::Nothing));
    assert_eq!(render_reply(&outcome), None);
}

#[test]
fn unknown_token_is_reported() {
    let data = b"ZZZZ56789abcdefghijklmnopqrstuv!0110".to_vec();
    let outcome = receive_upload(4, &names(), &data);
    match &outcome {
        Upload::Unknown { token } => assert_eq!(token, &data[..32].to_vec()),
        _ => panic!("the token was not reported as unknown"),
    }
    assert_eq!(
        render_reply(&outcome),
        Some(b"ERROR: Unknown token \"ZZZZ56789abcdefghijklmnopqrstuv!\"".to_vec())
    );
}

#[test]
fn short_upload_has_an_unknown_token() {
    let outcome = receive_upload(4, &names(), b"short");
    match &outcome {
        Upload::Unknown { token } => {
            assert_eq!(&token[..5], b"short");
            assert_eq!(&token[5..], &[0u8; 27][..]);
        }
        _ => panic!("the token was not reported as unknown"),
    }
}

#[test]
fn pattern_for_a_known_token_is_stored() {
    let outcome = receive_upload(4, &names(), &upload(b"01\n10\n"));
    match &outcome {
        Upload::Stored { index, file } => {
            assert_eq!(*index, 1);
            assert_eq!(file.name, TOKEN.to_vec());
            assert_eq!(file.content, b"01\n10\n".to_vec());
        }
        _ => panic!("the pattern was not stored"),
    }
    assert_eq!(
        render_reply(&outcome),
        Some(
            b"\x1b[0m\x1b[92mUpdated strat for \"\x1b[1m0123456789abcdefghijklmnopqrstuv\x1b[0m\x1b[92m\"\x1b[0m"
                .to_vec()
        )
    );
}

#[test]
fn text_one_character_short_is_refused() {
    let content = "1".repeat(64 * 64 - 1);
    let outcome = receive_upload(128, &names(), &upload(content.as_bytes()));
    match &outcome {
        Upload::Rejected { index, token, error } => {
            assert_eq!(*index, 1);
            assert_eq!(token, &TOKEN.to_vec());
            assert_eq!(*error, LengthMismatch { expected: 4096, actual: 4095 });
        }
        _ => panic!("the short text was not refused"),
    }
    assert_eq!(
        render_reply(&outcome),
        Some(
            b"\x1b[0m\x1b[91m\x1b[1mERROR\x1b[0m\x1b[91m: New strategy for \"\x1b[1m0123456789abcdefghijklmnopqrstuv\x1b[0m\x1b[91m\" of wrong length. Got 4095 but expected 4096 (\\n are ignored)\x1b[0m"
                .to_vec()
        )
    );
}

#[test]
fn token_alone_is_refused_for_its_empty_text() {
    let outcome = receive_upload(4, &names(), TOKEN);
    match outcome {
        Upload::Rejected { error, .. } => {
            assert_eq!(error, LengthMismatch { expected: 4, actual: 0 })
        }
        _ => panic!("the empty text was not refused"),
    }
}

#[test]
fn upload_capacity_leaves_room_for_line_breaks() {
    assert_eq!(upload_capacity(128), Some((32 + 64 * 64) * 2));
    assert_eq!(upload_capacity(4), Some(72));
    assert_eq!(upload_capacity(0), Some(64));
    assert_eq!(upload_capacity(usize::MAX), None);
}

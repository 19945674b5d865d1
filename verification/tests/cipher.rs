use lineutils::cipher::{Cryptor, CryptorErr};

fn s(v: &[&str]) -> Vec<String> {
    v.iter().map(|x| x.to_string()).collect()
}

#[test]
fn round_trip_ascii_text() {
    let text = b"The 3 quick foxes; jump! over 42 lazy dogs?".to_vec();
    let key = b"Key".to_vec();
    let enc = Cryptor::crypt(&text, &key);
    let dec = Cryptor::decrypt(&enc, &key);
    assert_eq!(dec, text);
}

#[test]
fn round_trip_single_letter_key() {
    let text = b"abcXYZ".to_vec();
    let key = b"q".to_vec();
    let enc = Cryptor::crypt(&text, &key);
    assert_ne!(enc, text);
    assert_eq!(Cryptor::decrypt(&enc, &key), text);
}

#[test]
fn case_and_identity_preserved() {
    let text = b"Hello, World! 123".to_vec();
    let key = b"cipher".to_vec();
    let enc = Cryptor::crypt(&text, &key);
    assert_eq!(enc.len(), text.len());
    for (e, t) in enc.iter().zip(text.iter()) {
        assert_eq!(e.is_ascii_lowercase(), t.is_ascii_lowercase());
        assert_eq!(e.is_ascii_uppercase(), t.is_ascii_uppercase());
        if !t.is_ascii_alphabetic() {
            assert_eq!(e, t);
        }
    }
    let dec = Cryptor::decrypt(&text, &key);
    for (d, t) in dec.iter().zip(text.iter()) {
        assert_eq!(d.is_ascii_lowercase(), t.is_ascii_lowercase());
        assert_eq!(d.is_ascii_uppercase(), t.is_ascii_uppercase());
        if !t.is_ascii_alphabetic() {
            assert_eq!(d, t);
        }
    }
}

#[test]
fn attack_at_dawn_canonical() {
    let text = b"Attack at dawn".to_vec();
    let key = b"lemon".to_vec();
    let enc = Cryptor::crypt(&text, &key);
    assert_eq!(enc, b"Lxfopv ef rnhr".to_vec());
    assert_eq!(Cryptor::decrypt(&enc, &key), text);
}

#[test]
fn key_case_does_not_matter() {
    let text = b"attack".to_vec();
    let lower = Cryptor::crypt(&text, &b"lemon".to_vec());
    let upper = Cryptor::crypt(&text, &b"LEMON".to_vec());
    assert_eq!(lower, upper);
}

#[test]
fn non_alpha_does_not_advance_key() {
    // "a b" under key "bc": both letters are shifted by 'b' then 'c',
    // the space in between consumes no key letter.
    let enc = Cryptor::crypt(&b"a b".to_vec(), &b"bc".to_vec());
    assert_eq!(enc, b"b d".to_vec());
}

#[test]
fn valid_key_accepts_letters_only() {
    assert!(Cryptor::valid_key("lemon"));
    assert!(Cryptor::valid_key("LeMoN"));
    assert!(!Cryptor::valid_key("abc1"));
    assert!(!Cryptor::valid_key("a-b"));
    assert!(!Cryptor::valid_key("a b"));
    assert!(Cryptor::valid_key(""));
}

#[test]
fn new_rejects_digit_keyword() {
    let r = Cryptor::new(&s(&["file.txt", "abc1"]));
    assert!(matches!(r, Err(CryptorErr::InvalidKey(k)) if k == "abc1"));
}

#[test]
fn new_rejects_symbol_keyword() {
    let r = Cryptor::new(&s(&["file.txt", "ke!y"]));
    assert!(matches!(r, Err(CryptorErr::InvalidKey(k)) if k == "ke!y"));
}

#[test]
fn new_rejects_empty_keyword() {
    let r = Cryptor::new(&s(&["file.txt", ""]));
    assert!(matches!(r, Err(CryptorErr::InvalidKey(k)) if k.is_empty()));
}

#[test]
fn new_rejects_missing_keyword() {
    let r = Cryptor::new(&s(&["file.txt"]));
    assert!(matches!(r, Err(CryptorErr::InvalidKey(k)) if k == "[NO KEY ARGUMENT]"));
}

#[test]
fn new_rejects_missing_file() {
    let r = Cryptor::new(&s(&[]));
    assert!(matches!(r, Err(CryptorErr::NoFiles)));
    let r2 = Cryptor::new(&s(&["-c"]));
    assert!(matches!(r2, Err(CryptorErr::NoFiles)));
}

#[test]
fn new_reads_flags() {
    let c = Cryptor::new(&s(&["-c", "notes.txt", "lemon"])).unwrap();
    assert_eq!(c.filename, "notes.txt");
    assert_eq!(c.keyword, "lemon");
    assert!(c.mode);
    assert!(!c.without_ask);

    let d = Cryptor::new(&s(&["notes.txt", "lemon", "-d", "-wa"])).unwrap();
    assert!(!d.mode);
    assert!(d.without_ask);
}

#[test]
fn new_defaults_to_decode() {
    let c = Cryptor::new(&s(&["notes.txt", "lemon"])).unwrap();
    assert!(!c.mode);
}

#[test]
fn new_asks_for_help() {
    assert!(matches!(Cryptor::new(&s(&["-h"])), Err(CryptorErr::Help)));
    assert!(matches!(Cryptor::new(&s(&["--help", "f", "k"])), Err(CryptorErr::Help)));
}

#[test]
fn crypt_new_rejects_unknown_flag() {
    let r = Cryptor::new(&s(&["-x", "f", "k"]));
    assert!(matches!(r, Err(CryptorErr::UnExpectedArg(a)) if a == "-x"));
}

#[test]
fn key_bytes_matches_keyword() {
    let c = Cryptor::new(&s(&["f", "Lemon"])).unwrap();
    assert_eq!(c.key_bytes(), b"Lemon".to_vec());
}

#[test]
fn preview_takes_first_three_nonempty_lines() {
    let text = b"\nfirst\n\nsecond\nthird\nfourth\n".to_vec();
    let p = lineutils::cipher::preview_lines(&text);
    assert_eq!(p, vec![b"first".to_vec(), b"second".to_vec(), b"third".to_vec()]);
}

#[test]
fn preview_of_short_text() {
    let text = b"only".to_vec();
    assert_eq!(lineutils::cipher::preview_lines(&text), vec![b"only".to_vec()]);
    assert!(lineutils::cipher::preview_lines(&Vec::new()).is_empty());
}

#[test]
fn overwrite_needs_y() {
    assert!(Cryptor::accepts_overwrite(b'y'));
    assert!(!Cryptor::accepts_overwrite(b'n'));
    assert!(!Cryptor::accepts_overwrite(b'Y'));
}

#[test]
fn messages_read_as_reported() {
    assert_eq!(CryptorErr::Help.message(), "helping!");
    assert_eq!(
        CryptorErr::InvalidKey("a1".to_string()).message(),
        "invalid keyword: a1"
    );
    assert_eq!(CryptorErr::NoFiles.message(), "no file to crypy/decrypt");
}

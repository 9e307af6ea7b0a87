use forscore_sync::error::ForScoreError;
use forscore_sync::key::MusicalKey;

fn code_of(s: &str) -> i32 {
    MusicalKey::from_string(s).unwrap().code
}

fn shown(code: i32) -> String {
    MusicalKey::from_code(code).unwrap().display()
}

#[test]
fn test_from_code() {
    // The middle digit is the sharp flag: 110 is C sharp, C itself is 100.
    assert_eq!(shown(110), "C# Major");
    assert_eq!(shown(100), "C Major");
    assert_eq!(shown(111), "C# Minor");
    assert_eq!(shown(101), "C Minor");
    assert_eq!(shown(310), "E# Major");
    assert_eq!(shown(300), "E Major");
    assert_eq!(shown(311), "E# Minor");
    assert_eq!(shown(301), "E Minor");
    assert_eq!(shown(410), "F# Major");
    assert_eq!(shown(400), "F Major");
    assert_eq!(shown(510), "G# Major");
    assert_eq!(shown(500), "G Major");
}

#[test]
fn test_from_string() {
    assert_eq!(code_of("C Major"), 100);
    assert_eq!(code_of("C# Major"), 110);
    assert_eq!(code_of("F# Minor"), 411);
    assert_eq!(code_of("Bb Major"), 610);
}

#[test]
fn key_fields_hold_note_and_mode() {
    let k = MusicalKey::from_code(611).unwrap();
    assert_eq!(k.code, 611);
    assert_eq!(k.note, "A#");
    assert_eq!(k.mode, "Minor");
}

#[test]
fn codes_that_name_no_key_decode_to_none() {
    for code in [0, -5, 99, 800, 120, 102, 1234, 812] {
        assert!(MusicalKey::from_code(code).is_none(), "code {}", code);
    }
    assert!(MusicalKey::from_code(711).is_some());
}

#[test]
fn round_trip_gives_canonical_form() {
    let cases = [
        ("C Major", "C Major"),
        ("c maj", "C Major"),
        ("Db Major", "C# Major"),
        ("e♭ MIN", "D# Minor"),
        ("G♯ minor", "G# Minor"),
        ("  bB   Minor  ", "A# Minor"),
        ("B Maj", "B Major"),
        ("ab major", "G# Major"),
    ];
    for (text, canonical) in cases {
        let k = MusicalKey::from_string(text).unwrap();
        assert_eq!(k.display(), canonical, "{}", text);
        assert_eq!(shown(k.code), canonical, "{}", text);
    }
}

#[test]
fn flat_and_sharp_spellings_share_a_code() {
    assert_eq!(code_of("Db Major"), code_of("C# Major"));
    assert_eq!(code_of("D♭ Major"), code_of("C♯ Major"));
    assert_eq!(code_of("Gb Minor"), code_of("F# Minor"));
    assert_eq!(code_of("Ab Major"), 510);
}

#[test]
fn malformed_keys_are_refused() {
    for text in ["Csharp", "H Major", "C", "C Major Minor", "", "E# Major", "C Dorian", "Cb Major"] {
        match MusicalKey::from_string(text) {
            Err(ForScoreError::InvalidKey(t)) => assert_eq!(t, text.trim()),
            other => panic!("{} gave {:?}", text, other),
        }
    }
}

#[test]
fn refused_key_text_is_trimmed() {
    match MusicalKey::from_string("  H Major \t") {
        Err(ForScoreError::InvalidKey(t)) => assert_eq!(t, "H Major"),
        other => panic!("gave {:?}", other),
    }
}

use theme_wallpaper::codec::{parse, serialize, FormatError, FormatErrorKind};
use theme_wallpaper::value::{ColorSignature, Value};

#[test]
fn signed_color_without_wallpaper_parses_and_rerenders_hex() {
    // One color key in signed form, no wallpaper trailer.
    let bytes = b"accent=-1\n".to_vec();
    let (doc, detected) = parse(&bytes).unwrap();
    assert_eq!(detected, ColorSignature::Signed);
    assert!(doc.wallpaper().is_none());
    assert_eq!(doc.len(), 1);
    assert_eq!(
        doc.get(&String::from("accent")),
        Some(&Value::Color(0xFFFF_FFFF))
    );
    let out = serialize(&doc, ColorSignature::Hex);
    assert_eq!(out, b"accent=#ffffffff\n".to_vec());
}

#[test]
fn parse_reads_all_value_kinds() {
    let bytes = b"a=-16777216\nb=#0000ffff\nc=true\nd=false\ne=some text = here\nf=\n".to_vec();
    let (doc, detected) = parse(&bytes).unwrap();
    assert_eq!(detected, ColorSignature::Signed);
    assert_eq!(doc.get(&String::from("a")), Some(&Value::Color(0xFF00_0000)));
    // #0000ffff is rrggbbaa, so alpha 0xff, red 0x00, green 0x00, blue 0xff.
    assert_eq!(doc.get(&String::from("b")), Some(&Value::Color(0xFF00_00FF)));
    assert_eq!(doc.get(&String::from("c")), Some(&Value::Boolean(true)));
    assert_eq!(doc.get(&String::from("d")), Some(&Value::Boolean(false)));
    assert_eq!(
        doc.get(&String::from("e")),
        Some(&Value::Text(String::from("some text = here")))
    );
    assert_eq!(doc.get(&String::from("f")), Some(&Value::Text(String::new())));
    assert_eq!(doc.get(&String::from("missing")), None);
}

#[test]
fn round_trip_is_identity_under_both_signatures() {
    let bytes =
        b"accent=-1\nbackground=#00ff00ff\nshadowed=true\nnote=plain\nWPS\n\x00\x01binary\nWPE\x02"
            .to_vec();
    let (doc, detected) = parse(&bytes).unwrap();
    assert_eq!(detected, ColorSignature::Signed);
    for signature in [ColorSignature::Signed, ColorSignature::Hex] {
        let out = serialize(&doc, signature);
        let (doc2, _) = parse(&out).unwrap();
        assert_eq!(doc, doc2);
    }
}

#[test]
fn reserialization_under_detected_signature_is_byte_identical_for_canonical_input() {
    let bytes = b"accent=-1\nouter=2147483647\ninner=-2147483648\n".to_vec();
    let (doc, detected) = parse(&bytes).unwrap();
    let out = serialize(&doc, detected);
    assert_eq!(out, bytes);
}

#[test]
fn wallpaper_blob_is_copied_opaquely() {
    let mut bytes = b"k=1\nWPS\n".to_vec();
    let blob: Vec<u8> = vec![0, 10, 255, 87, 80, 83, 10, 1];
    bytes.extend_from_slice(&blob);
    let (doc, _) = parse(&bytes).unwrap();
    assert_eq!(doc.wallpaper(), Some(&blob));
    let out = serialize(&doc, ColorSignature::Signed);
    assert_eq!(out, bytes);
}

#[test]
fn hex_parsing_accepts_upper_case_and_rerenders_lower_case() {
    let bytes = b"k=#AABBCCDD\n".to_vec();
    let (doc, detected) = parse(&bytes).unwrap();
    assert_eq!(detected, ColorSignature::Hex);
    assert_eq!(doc.get(&String::from("k")), Some(&Value::Color(0xDDAA_BBCC)));
    let out = serialize(&doc, ColorSignature::Hex);
    assert_eq!(out, b"k=#aabbccdd\n".to_vec());
}

#[test]
fn detected_signature_is_the_first_color_form() {
    let bytes = b"t=text\nh=#00000000\ns=-5\n".to_vec();
    let (_, detected) = parse(&bytes).unwrap();
    assert_eq!(detected, ColorSignature::Hex);
    let bytes = b"only=text\n".to_vec();
    let (_, detected) = parse(&bytes).unwrap();
    assert_eq!(detected, ColorSignature::Hex);
}

#[test]
fn later_occurrence_of_a_key_overwrites_in_place() {
    let bytes = b"a=1\nb=2\na=3\n".to_vec();
    let (doc, _) = parse(&bytes).unwrap();
    assert_eq!(doc.len(), 2);
    let (k0, v0) = doc.entry_at(0);
    assert_eq!((k0.as_str(), v0), ("a", &Value::Color(3)));
    let (k1, v1) = doc.entry_at(1);
    assert_eq!((k1.as_str(), v1), ("b", &Value::Color(2)));
}

#[test]
fn remove_of_absent_key_changes_nothing() {
    let bytes = b"a=1\nb=2\n".to_vec();
    let (mut doc, _) = parse(&bytes).unwrap();
    let before = doc.clone();
    doc.remove(&String::from("c"));
    assert_eq!(doc, before);
    let out = serialize(&doc, ColorSignature::Signed);
    assert_eq!(out, bytes);
}

#[test]
fn set_updates_in_place_and_appends_new_keys() {
    let bytes = b"a=1\nb=2\n".to_vec();
    let (mut doc, _) = parse(&bytes).unwrap();
    doc.set(String::from("a"), Value::Color(9));
    doc.set(String::from("c"), Value::Boolean(true));
    let out = serialize(&doc, ColorSignature::Signed);
    assert_eq!(out, b"a=9\nb=2\nc=true\n".to_vec());
}

#[test]
fn unterminated_line_is_rejected() {
    let err = parse(&b"a=1\nbroken".to_vec()).unwrap_err();
    assert_eq!(err, FormatError { offset: 4, kind: FormatErrorKind::UnterminatedLine });
}

#[test]
fn line_without_separator_is_rejected() {
    let err = parse(&b"a=1\nnoseparator\n".to_vec()).unwrap_err();
    assert_eq!(err, FormatError { offset: 4, kind: FormatErrorKind::MissingSeparator });
}

#[test]
fn empty_key_is_rejected() {
    let err = parse(&b"=5\n".to_vec()).unwrap_err();
    assert_eq!(err, FormatError { offset: 0, kind: FormatErrorKind::EmptyKey });
}

#[test]
fn non_ascii_line_is_rejected() {
    let err = parse(&b"k=\xffoops\n".to_vec()).unwrap_err();
    assert_eq!(err, FormatError { offset: 0, kind: FormatErrorKind::NonAscii });
}

#[test]
fn marker_with_no_blob_is_rejected() {
    let err = parse(&b"a=1\nWPS\n".to_vec()).unwrap_err();
    assert_eq!(err, FormatError { offset: 4, kind: FormatErrorKind::EmptyWallpaper });
}

#[test]
fn empty_input_is_an_empty_document() {
    let (doc, detected) = parse(&Vec::new()).unwrap();
    assert_eq!(doc.len(), 0);
    assert!(doc.wallpaper().is_none());
    assert_eq!(detected, ColorSignature::Hex);
    assert_eq!(serialize(&doc, ColorSignature::Hex), Vec::<u8>::new());
}

#[test]
fn signed_extremes_round_trip() {
    let bytes = b"min=-2147483648\nmax=2147483647\nzero=0\nmzero=-0\n".to_vec();
    let (doc, _) = parse(&bytes).unwrap();
    assert_eq!(doc.get(&String::from("min")), Some(&Value::Color(0x8000_0000)));
    assert_eq!(doc.get(&String::from("max")), Some(&Value::Color(0x7FFF_FFFF)));
    assert_eq!(doc.get(&String::from("zero")), Some(&Value::Color(0)));
    assert_eq!(doc.get(&String::from("mzero")), Some(&Value::Color(0)));
    let out = serialize(&doc, ColorSignature::Signed);
    assert_eq!(out, b"min=-2147483648\nmax=2147483647\nzero=0\nmzero=0\n".to_vec());
}

#[test]
fn out_of_range_numbers_stay_text() {
    let bytes = b"big=2147483648\nsmall=-2147483649\nlong=123456789012\n".to_vec();
    let (doc, detected) = parse(&bytes).unwrap();
    assert_eq!(detected, ColorSignature::Hex);
    assert_eq!(
        doc.get(&String::from("big")),
        Some(&Value::Text(String::from("2147483648")))
    );
    assert_eq!(
        doc.get(&String::from("small")),
        Some(&Value::Text(String::from("-2147483649")))
    );
    assert_eq!(
        doc.get(&String::from("long")),
        Some(&Value::Text(String::from("123456789012")))
    );
}

#[test]
fn malformed_hex_stays_text() {
    let bytes = b"short=#ff\nbad=#zzzzzzzz\nsix=#aabbcc\n".to_vec();
    let (doc, _) = parse(&bytes).unwrap();
    assert_eq!(doc.get(&String::from("short")), Some(&Value::Text(String::from("#ff"))));
    assert_eq!(doc.get(&String::from("bad")), Some(&Value::Text(String::from("#zzzzzzzz"))));
    assert_eq!(doc.get(&String::from("six")), Some(&Value::Text(String::from("#aabbcc"))));
}

#[test]
fn wps_with_value_is_an_ordinary_key() {
    let bytes = b"WPS=1\n".to_vec();
    let (doc, _) = parse(&bytes).unwrap();
    assert_eq!(doc.get(&String::from("WPS")), Some(&Value::Color(1)));
    assert_eq!(serialize(&doc, ColorSignature::Signed), bytes);
}

use zenoh::encoding::{Encoding, KnownEncoding, KNOWN_COUNT};

#[test]
fn known_encoding_wire_numbers() {
    assert_eq!(KnownEncoding::TextPlain.to_u8(), 3);
    assert_eq!(u8::from(KnownEncoding::ImageGif), 20);
    assert_eq!(usize::from(KnownEncoding::AppJson), 5);
    assert_eq!(KnownEncoding::try_from_u8(0), Ok(KnownEncoding::Empty));
    assert_eq!(KnownEncoding::try_from_u8(20), Ok(KnownEncoding::ImageGif));
    assert_eq!(KnownEncoding::try_from_u8(21), Err(()));
    assert_eq!(KnownEncoding::try_from_zint(11), Ok(KnownEncoding::AppXWwwFormUrlencoded));
    assert_eq!(KnownEncoding::try_from_zint(1 << 40), Err(()));
}

#[test]
fn known_encoding_roundtrip_all() {
    for c in 0..KNOWN_COUNT {
        let k = KnownEncoding::try_from_u8(c).unwrap();
        assert_eq!(k.to_u8(), c);
    }
}

#[test]
fn known_encoding_mime_text() {
    assert_eq!(KnownEncoding::Empty.as_str(), "");
    assert_eq!(KnownEncoding::AppXhtmlXml.as_str(), "application/xhtml+xml");
    assert_eq!(KnownEncoding::TextJavascript.as_str(), "text/javascript");
}

#[test]
fn encoding_new() {
    assert_eq!(Encoding::new(3, ""), Some(Encoding::Exact(KnownEncoding::TextPlain)));
    assert_eq!(
        Encoding::new(5, ";v=1"),
        Some(Encoding::WithSuffix(KnownEncoding::AppJson, ";v=1".to_string()))
    );
    assert_eq!(Encoding::new(21, ""), None);
}

#[test]
fn encoding_with_suffix() {
    let e = Encoding::Exact(KnownEncoding::TextPlain).with_suffix(";charset=");
    assert_eq!(e, Encoding::WithSuffix(KnownEncoding::TextPlain, ";charset=".to_string()));
    let e = e.with_suffix(";charset=utf-8");
    assert_eq!(e, Encoding::WithSuffix(KnownEncoding::TextPlain, ";charset=utf-8".to_string()));
    assert_eq!(e.to_string(), "text/plain;charset=utf-8");
    let e = Encoding::Exact(KnownEncoding::TextPlain).with_suffix("a").with_suffix("b");
    assert_eq!(e, Encoding::WithSuffix(KnownEncoding::TextPlain, "b".to_string()));
    let e = Encoding::Exact(KnownEncoding::AppJson).with_suffix("");
    assert_eq!(e, Encoding::WithSuffix(KnownEncoding::AppJson, String::new()));
}

#[test]
fn encoding_prefix_suffix() {
    let e = Encoding::WithSuffix(KnownEncoding::ImagePng, "+x".to_string());
    assert_eq!(*e.prefix(), KnownEncoding::ImagePng);
    assert_eq!(e.suffix(), "+x");
    let e = Encoding::Exact(KnownEncoding::TextCsv);
    assert_eq!(e.suffix(), "");
    assert_eq!(e.to_string(), "text/csv");
}

#[test]
fn encoding_starts_with() {
    let a = Encoding::WithSuffix(KnownEncoding::TextPlain, ";charset=utf-8".to_string());
    let b = Encoding::WithSuffix(KnownEncoding::TextPlain, ";charset".to_string());
    assert!(a.starts_with(&b));
    assert!(!b.starts_with(&a));
    assert!(a.starts_with(&Encoding::Exact(KnownEncoding::TextPlain)));
    assert!(!a.starts_with(&Encoding::Exact(KnownEncoding::TextCsv)));
    assert!(a.starts_with(&a));
    // the string representations decide, whatever the well-known prefixes
    let c = Encoding::WithSuffix(KnownEncoding::Empty, "text/".to_string());
    let d = Encoding::Exact(KnownEncoding::TextPlain);
    assert!(d.starts_with(&c));
    assert!(!c.starts_with(&d));
    assert!(d.starts_with(&Encoding::Exact(KnownEncoding::Empty)));
    assert!(!Encoding::Exact(KnownEncoding::Empty).starts_with(&d));
}

#[test]
fn encoding_from_str() {
    assert_eq!(Encoding::from_str("text/plain"), Encoding::Exact(KnownEncoding::TextPlain));
    assert_eq!(
        Encoding::from_str("application/json;x"),
        Encoding::WithSuffix(KnownEncoding::AppJson, ";x".to_string())
    );
    assert_eq!(Encoding::from_str(""), Encoding::Exact(KnownEncoding::Empty));
    assert_eq!(
        Encoding::from_str("foo/bar"),
        Encoding::WithSuffix(KnownEncoding::Empty, "foo/bar".to_string())
    );
    assert_eq!(
        Encoding::from_str("application/xhtml+xml"),
        Encoding::Exact(KnownEncoding::AppXhtmlXml)
    );
    assert_eq!(
        Encoding::from_string("image/gif89".to_string()),
        Encoding::WithSuffix(KnownEncoding::ImageGif, "89".to_string())
    );
}

#[test]
fn encoding_text_roundtrip() {
    for c in 0..KNOWN_COUNT {
        let k = KnownEncoding::try_from_u8(c).unwrap();
        let exact = Encoding::Exact(k);
        assert_eq!(Encoding::from_str(&exact.to_string()), exact);
        if c != 0 {
            let with = Encoding::WithSuffix(k, ";q=1".to_string());
            assert_eq!(Encoding::from_str(&with.to_string()), with);
            let empty_suffix = Encoding::WithSuffix(k, String::new());
            assert_eq!(Encoding::from_str(&empty_suffix.to_string()), exact);
        }
    }
}

#[test]
fn encoding_text_roundtrip_fails_for_empty_prefix_with_mime_suffix() {
    let e = Encoding::WithSuffix(KnownEncoding::Empty, "text/plain".to_string());
    assert_eq!(Encoding::from_str(&e.to_string()), Encoding::Exact(KnownEncoding::TextPlain));
}

#[test]
fn encoding_default() {
    assert_eq!(Encoding::default(), Encoding::Exact(KnownEncoding::Empty));
}

struct Mime(String);

impl From<&Encoding> for Mime {
    fn from(e: &Encoding) -> Mime {
        Mime(e.to_string())
    }
}

#[test]
fn encoding_as_ref() {
    let e = Encoding::WithSuffix(KnownEncoding::TextHtml, ";x".to_string());
    let m: Mime = e.as_ref();
    assert_eq!(m.0, "text/html;x");
}

#[test]
fn encoding_constants() {
    assert_eq!(Encoding::empty(), Encoding::Exact(KnownEncoding::Empty));
    assert_eq!(Encoding::string(), Encoding::text_plain());
    assert_eq!(Encoding::app_json().to_string(), "application/json");
    assert_eq!(Encoding::img_jpg(), Encoding::Exact(KnownEncoding::ImageJpeg));
    assert_eq!(Encoding::app_x_www_form_urlencoded().to_string(), "application/x-www-form-urlencoded");
    assert_eq!(Encoding::text_plain().with_suffix("a").with_suffix("b"), Encoding::WithSuffix(KnownEncoding::TextPlain, "b".to_string()));
}

#[test]
fn encoding_text_round_trips() {
    for s in ["", "text/plain", "text/plain;x", "image/gif", "foo", "text/", "application/jsonx"] {
        assert_eq!(Encoding::from_str(s).to_string(), s);
        assert_eq!(Encoding::from_str(s), Encoding::from_string(s.to_string()));
    }
    for code in 0u8..21 {
        let k = KnownEncoding::try_from_u8(code).unwrap();
        assert_eq!(Encoding::from_str(k.as_str()), Encoding::Exact(k));
    }
    assert_eq!(Encoding::from_str("foo"), Encoding::WithSuffix(KnownEncoding::Empty, "foo".to_string()));
}

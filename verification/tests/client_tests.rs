use thu_learn_cli::client::{
    extract_csrf, filename_from_content_disposition, percent_decode, sanitize_filename, snippet,
};

#[test]
fn cd_filename_ascii() {
    let cd = br#"attachment; filename="Physics(1)_Mock Exam.pdf""#;
    assert_eq!(
        filename_from_content_disposition(cd).as_deref(),
        Some("Physics(1)_Mock Exam.pdf")
    );
}

#[test]
fn cd_filename_utf8_bytes() {
    // Realistic Learn fixture: filename="<UTF-8 bytes>".
    let mut cd = b"attachment; filename=\"".to_vec();
    cd.extend_from_slice("数分2作业13.pdf".as_bytes());
    cd.push(b'"');
    assert_eq!(
        filename_from_content_disposition(&cd).as_deref(),
        Some("数分2作业13.pdf")
    );
}

#[test]
fn cd_filename_rfc5987() {
    let cd = b"attachment; filename*=UTF-8''%E6%95%B0.pdf";
    assert_eq!(
        filename_from_content_disposition(cd).as_deref(),
        Some("数.pdf")
    );
}

#[test]
fn cd_filename_sanitizes_slash() {
    let cd = br#"attachment; filename="a/b.pdf""#;
    assert_eq!(
        filename_from_content_disposition(cd).as_deref(),
        Some("a_b.pdf")
    );
}

#[test]
fn cd_filename_rejects_non_utf8_plain_name() {
    let cd = b"attachment; filename=\"\xff\xfe.pdf\"";
    assert_eq!(filename_from_content_disposition(cd), None);
    assert_eq!(filename_from_content_disposition(b"inline"), None);
}

#[test]
fn cd_filename_star_falls_back_to_plain() {
    // Invalid UTF-8 after percent-decoding: the plain name is used.
    let cd = b"attachment; filename*=UTF-8''%FF.pdf; filename=\"x.pdf\"";
    assert_eq!(filename_from_content_disposition(cd).as_deref(), Some("x.pdf"));
}

#[test]
fn cd_filename_star_with_broken_escape_falls_back() {
    let mut cd = b"attachment; filename*=UTF-8''%a".to_vec();
    cd.extend_from_slice("é".as_bytes());
    cd.extend_from_slice(b"; filename=\"ok.txt\"");
    // `%a` and the next byte are no two hex digits, so the bytes are kept: "%aé".
    assert_eq!(filename_from_content_disposition(&cd).as_deref(), Some("%aé"));
}

#[test]
fn percent_decode_examples() {
    assert_eq!(percent_decode("%E6%95%B0"), vec![0xe6, 0x95, 0xb0]);
    assert_eq!(percent_decode("a%zzb"), b"a%zzb".to_vec());
    assert_eq!(percent_decode("%+f"), b"%+f".to_vec());
    assert_eq!(percent_decode("%+a"), b"%+a".to_vec());
    assert_eq!(percent_decode("%E6%95%B0.pdf"), "数.pdf".as_bytes().to_vec());
    assert_eq!(percent_decode("100%"), b"100%".to_vec());
    assert_eq!(percent_decode("%zz"), b"%zz".to_vec());
    assert_eq!(percent_decode("%数"), "%数".as_bytes().to_vec());
    assert_eq!(percent_decode("%a数"), "%a数".as_bytes().to_vec());
    assert_eq!(percent_decode("%41"), vec![0x41]);
    // A trailing `%4` has too few bytes after it.
    assert_eq!(percent_decode("x%4"), b"x%4".to_vec());
}

#[test]
fn sanitize_filename_examples() {
    assert_eq!(sanitize_filename("  \"a\\b/c\"  "), "a_b_c");
    assert_eq!(sanitize_filename("\"\"\""), "");
}

#[test]
fn csrf_extracted() {
    let html = r#"<a href="/x?course=1&_csrf=abc-123-def">link</a>"#;
    assert_eq!(extract_csrf(html).as_deref(), Some("abc-123-def"));
}

#[test]
fn csrf_skips_empty_token_and_stops_at_quote() {
    assert_eq!(extract_csrf("_csrf=&x _csrf=tok'rest").as_deref(), Some("tok"));
    assert_eq!(extract_csrf("no token here"), None);
}

#[test]
fn snippet_takes_first_200_chars() {
    let s = "字".repeat(250);
    assert_eq!(snippet(&s).chars().count(), 200);
    assert_eq!(snippet("short"), "short");
}

#[test]
fn json_reply_reads_json_text() {
    let r = thu_learn_cli::client::json_reply("{\"a\": [1, \"x\"], \"b\": null}");
    match r {
        Ok(thu_learn_cli::json::JsonValue::Object(members)) => {
            assert_eq!(members.len(), 2);
            assert_eq!(members[0].0, "a");
            assert!(matches!(&members[0].1, thu_learn_cli::json::JsonValue::Array(v) if v.len() == 2
                && matches!(&v[0], thu_learn_cli::json::JsonValue::Number(n) if n == "1")
                && matches!(&v[1], thu_learn_cli::json::JsonValue::Str(s) if s == "x")));
            assert_eq!(members[1].0, "b");
            assert!(matches!(members[1].1, thu_learn_cli::json::JsonValue::Null));
        }
        other => panic!("unexpected {:?}", other),
    }
}

#[test]
fn json_reply_names_the_start_of_a_bad_reply() {
    let r = thu_learn_cli::client::json_reply("<html>login</html>");
    match r {
        Err(m) => assert_eq!(
            m,
            "Failed to parse JSON; first 200 response chars: <html>login</html>"
        ),
        Ok(v) => panic!("unexpected {:?}", v),
    }
    let long = "x".repeat(300);
    match thu_learn_cli::client::json_reply(&long) {
        Err(m) => assert_eq!(
            m,
            format!("Failed to parse JSON; first 200 response chars: {}", "x".repeat(200))
        ),
        Ok(v) => panic!("unexpected {:?}", v),
    }
}

use birthday_bot::compose::compose;

#[test]
fn compose_reports_utf16_spans_exactly() {
    let args = vec![String::from("Alice"), String::from("30")];
    let (text, spans) = compose("Happy birthday &, you are & today!", &args).unwrap();
    assert_eq!(text, "Happy birthday Alice, you are 30 today!");
    assert_eq!(spans, vec![(15, 5), (30, 2)]);
    // The offsets point exactly at the substituted values.
    let units: Vec<u16> = text.encode_utf16().collect();
    let alice: Vec<u16> = "Alice".encode_utf16().collect();
    assert_eq!(&units[15..20], &alice[..]);
    let thirty: Vec<u16> = "30".encode_utf16().collect();
    assert_eq!(&units[30..32], &thirty[..]);
}

#[test]
fn compose_is_stable_across_calls() {
    let args = vec![String::from("Alice"), String::from("30")];
    let first = compose("Happy birthday &, you are & today!", &args).unwrap();
    let second = compose("Happy birthday &, you are & today!", &args).unwrap();
    assert_eq!(first, second);
}

#[test]
fn compose_counts_supplementary_characters_as_two_units() {
    // One emoji outside the Basic Multilingual Plane: two UTF-16 units.
    let args = vec![String::from("\u{1F600}"), String::from("x")];
    let (text, spans) = compose("&-&", &args).unwrap();
    assert_eq!(text, "\u{1F600}-x");
    assert_eq!(spans, vec![(0, 2), (3, 1)]);
}

#[test]
fn compose_leaves_extra_markers_verbatim() {
    // Markers beyond the supplied values are ordinary characters.
    let args = vec![String::from("a")];
    let (text, spans) = compose("&&&", &args).unwrap();
    assert_eq!(text, "a&&");
    assert_eq!(spans, vec![(0, 1)]);
}

#[test]
fn compose_with_no_marker_reports_no_span() {
    let args = vec![String::from("a")];
    let (text, spans) = compose("plain", &args).unwrap();
    assert_eq!(text, "plain");
    assert!(spans.is_empty());
}

#[test]
fn compose_of_an_empty_template_is_empty() {
    let args = vec![String::from("a")];
    let (text, spans) = compose("", &args).unwrap();
    assert_eq!(text, "");
    assert!(spans.is_empty());
}

use engagic_core::pdf::downloader::{
    backoff, DownloadError, DownloadState, Event, Next, PdfDownloader, DOWNLOAD_TIMEOUT_SECS,
    MAX_PDF_SIZE, MAX_RETRIES, MAX_URL_LENGTH,
};

#[test]
fn test_google_docs_url_extraction() {
    let downloader = PdfDownloader::new();

    let google_url = "https://docs.google.com/gview?url=https%3A%2F%2Fexample.com%2Fdoc.pdf";
    let extracted = downloader.extract_google_docs_url(google_url);
    assert!(extracted.contains("example.com"));

    let normal_url = "https://example.com/doc.pdf";
    let unchanged = downloader.extract_google_docs_url(normal_url);
    assert_eq!(unchanged, normal_url);
}

#[test]
fn test_invalid_url() {
    let downloader = PdfDownloader::new();
    let result = downloader.begin("");
    assert!(result.is_err());
}

#[test]
fn viewer_target_is_decoded() {
    let downloader = PdfDownloader::new();
    let url = "https://docs.google.com/gview?url=https%3A%2F%2Fexample.com%2Fdoc.pdf";
    assert_eq!(downloader.extract_google_docs_url(url), "https://example.com/doc.pdf");
}

#[test]
fn viewer_target_ends_at_the_next_parameter() {
    let downloader = PdfDownloader::new();
    let url = "https://docs.google.com/gview?url=https%3A%2F%2Fexample.com%2Fa%20b.pdf&embedded=true&x=1";
    assert_eq!(downloader.extract_google_docs_url(url), "https://example.com/a b.pdf");
}

#[test]
fn viewer_target_is_what_follows_the_first_key() {
    let downloader = PdfDownloader::new();
    let url = "https://docs.google.com/gview?embedded=true&url=one&url=two";
    assert_eq!(downloader.extract_google_docs_url(url), "one");
    let empty = "https://docs.google.com/gview?url=";
    assert_eq!(downloader.extract_google_docs_url(empty), "");
}

#[test]
fn viewer_target_may_hold_wide_characters() {
    let downloader = PdfDownloader::new();
    let url = "https://docs.google.com/gview?url=https%3A%2F%2Fexample.com%2F%C3%A9t%C3%A9.pdf";
    assert_eq!(downloader.extract_google_docs_url(url), "https://example.com/été.pdf");
    let raw = "https://docs.google.com/gview?url=https://example.com/été.pdf";
    assert_eq!(downloader.extract_google_docs_url(raw), "https://example.com/été.pdf");
}

#[test]
fn lone_percent_signs_stay() {
    let downloader = PdfDownloader::new();
    let url = "https://docs.google.com/gview?url=100%&a";
    assert_eq!(downloader.extract_google_docs_url(url), "100%");
    let url = "https://docs.google.com/gview?url=%4x%zz%%41%4";
    assert_eq!(downloader.extract_google_docs_url(url), "%4x%zz%A%4");
    let url = "https://docs.google.com/gview?url=%2%32+%%32";
    assert_eq!(downloader.extract_google_docs_url(url), "%22+%2");
}

#[test]
fn escapes_may_be_written_in_either_case() {
    let downloader = PdfDownloader::new();
    let url = "https://docs.google.com/gview?url=%e2%98%83%2f%2F%E2%98%83";
    assert_eq!(downloader.extract_google_docs_url(url), "☃//☃");
}

#[test]
fn viewer_target_that_is_no_text_gives_an_empty_address() {
    let downloader = PdfDownloader::new();
    let url = "https://docs.google.com/gview?url=%FF%FE";
    assert_eq!(downloader.extract_google_docs_url(url), "");
}

#[test]
fn other_addresses_are_left_alone() {
    let downloader = PdfDownloader::new();
    for url in [
        "https://example.com/doc.pdf",
        "https://example.com/doc.pdf?url=https%3A%2F%2Fother.example%2Fx.pdf",
        "https://docs.google.com/gview?id=12%20",
        "https://docs.google.com/document/d/1?url=a%20b",
        "",
        "été%20",
    ] {
        assert_eq!(downloader.extract_google_docs_url(url), url);
    }
}

#[test]
fn viewer_marker_may_stand_anywhere() {
    let downloader = PdfDownloader::new();
    let url = "https://example.com/?url=a%2Fb&via=docs.google.com/gview";
    assert_eq!(downloader.extract_google_docs_url(url), "a/b");
}

#[test]
fn standard_limits() {
    let downloader = PdfDownloader::new();
    assert_eq!(downloader.max_size(), 200 * 1024 * 1024);
    assert_eq!(downloader.max_size(), MAX_PDF_SIZE);
    assert_eq!(downloader.timeout_secs(), 30);
    assert_eq!(downloader.timeout_secs(), DOWNLOAD_TIMEOUT_SECS);
    assert_eq!(downloader.max_retries(), 3);
    assert_eq!(downloader.max_retries(), MAX_RETRIES);
    assert_eq!(MAX_URL_LENGTH, 2000);
}

#[test]
fn chosen_limits() {
    let downloader = PdfDownloader::with_limits(10, 5, 7);
    assert_eq!(downloader.max_size(), 10);
    assert_eq!(downloader.timeout_secs(), 5);
    assert_eq!(downloader.max_retries(), 7);
}

#[test]
fn empty_address_is_invalid() {
    let downloader = PdfDownloader::new();
    match downloader.begin("") {
        Err(DownloadError::InvalidUrl(url)) => assert_eq!(url, ""),
        other => panic!("unexpected: {:?}", other),
    }
}

#[test]
fn address_over_two_thousand_characters_is_invalid() {
    let downloader = PdfDownloader::new();
    let long = "https://example.com/".to_string() + &"a".repeat(1981);
    assert_eq!(long.len(), 2001);
    match downloader.begin(&long) {
        Err(DownloadError::InvalidUrl(url)) => assert_eq!(url, long),
        other => panic!("unexpected: {:?}", other),
    }
    let edge = &long[..2000];
    let state = downloader.begin(edge).unwrap();
    assert_eq!(state.url, edge);
    assert_eq!(state.attempt, 1);
}

#[test]
fn address_length_is_counted_in_characters() {
    let downloader = PdfDownloader::new();
    let wide = "https://example.com/".to_string() + &"é".repeat(1980);
    assert_eq!(wide.chars().count(), 2000);
    assert!(wide.len() > 2000);
    assert!(downloader.begin(&wide).is_ok());
}

#[test]
fn download_starts_at_the_resolved_address() {
    let downloader = PdfDownloader::new();
    let state = downloader
        .begin("https://docs.google.com/gview?url=https%3A%2F%2Fexample.com%2Fdoc.pdf&x=1")
        .unwrap();
    assert_eq!(state.url, "https://example.com/doc.pdf");
    assert_eq!(state.attempt, 1);
}

#[test]
fn no_attempt_allowed_exhausts_at_once() {
    let downloader = PdfDownloader::with_limits(MAX_PDF_SIZE, 30, 0);
    match downloader.begin("https://example.com/doc.pdf") {
        Err(DownloadError::RetriesExhausted) => {}
        other => panic!("unexpected: {:?}", other),
    }
    // the address is judged first
    match downloader.begin("") {
        Err(DownloadError::InvalidUrl(_)) => {}
        other => panic!("unexpected: {:?}", other),
    }
}

#[test]
fn third_attempt_succeeds_after_two_waits() {
    let downloader = PdfDownloader::new();
    let mut waits = Vec::new();
    let state = downloader.begin("https://example.com/doc.pdf").unwrap();

    let state = match downloader.step(state, Event::Failed("connection reset".to_string())) {
        Next::Request { state, delay_secs } => {
            waits.push(delay_secs);
            state
        }
        other => panic!("unexpected: {:?}", other),
    };
    assert_eq!(state.attempt, 2);
    assert_eq!(state.url, "https://example.com/doc.pdf");

    let state = match downloader.step(state, Event::Failed("timed out".to_string())) {
        Next::Request { state, delay_secs } => {
            waits.push(delay_secs);
            state
        }
        other => panic!("unexpected: {:?}", other),
    };
    assert_eq!(state.attempt, 3);

    let state = match downloader.step(state, Event::Headers(Some(4))) {
        Next::ReadBody { state } => state,
        other => panic!("unexpected: {:?}", other),
    };
    assert_eq!(state.attempt, 3);
    match downloader.step(state, Event::Body(vec![37, 80, 68, 70])) {
        Next::Done(Ok(bytes)) => assert_eq!(bytes, vec![37, 80, 68, 70]),
        other => panic!("unexpected: {:?}", other),
    }
    assert_eq!(waits, vec![1, 2]);
}

#[test]
fn last_failure_is_returned_without_a_wait() {
    let downloader = PdfDownloader::new();
    let mut state = downloader.begin("https://example.com/doc.pdf").unwrap();
    for (message, wait) in [("first", 1), ("second", 2)] {
        state = match downloader.step(state, Event::Failed(message.to_string())) {
            Next::Request { state, delay_secs } => {
                assert_eq!(delay_secs, wait);
                state
            }
            other => panic!("unexpected: {:?}", other),
        };
    }
    match downloader.step(state, Event::Failed("third".to_string())) {
        Next::Done(Err(DownloadError::Network(message))) => assert_eq!(message, "third"),
        other => panic!("unexpected: {:?}", other),
    }
}

#[test]
fn failure_while_reading_the_body_is_retried() {
    let downloader = PdfDownloader::new();
    let state = downloader.begin("https://example.com/doc.pdf").unwrap();
    let state = match downloader.step(state, Event::Headers(None)) {
        Next::ReadBody { state } => state,
        other => panic!("unexpected: {:?}", other),
    };
    match downloader.step(state, Event::Failed("broken pipe".to_string())) {
        Next::Request { state, delay_secs } => {
            assert_eq!(state.attempt, 2);
            assert_eq!(delay_secs, 1);
        }
        other => panic!("unexpected: {:?}", other),
    }
}

#[test]
fn single_attempt_is_never_repeated() {
    let downloader = PdfDownloader::with_limits(MAX_PDF_SIZE, 30, 1);
    let state = downloader.begin("https://example.com/doc.pdf").unwrap();
    match downloader.step(state, Event::Failed("refused".to_string())) {
        Next::Done(Err(DownloadError::Network(message))) => assert_eq!(message, "refused"),
        other => panic!("unexpected: {:?}", other),
    }
}

#[test]
fn declared_length_over_the_limit_ends_the_download() {
    let downloader = PdfDownloader::new();
    let state = downloader.begin("https://example.com/doc.pdf").unwrap();
    match downloader.step(state, Event::Headers(Some(MAX_PDF_SIZE as u64 + 1))) {
        Next::Done(Err(DownloadError::TooLarge(size))) => assert_eq!(size, MAX_PDF_SIZE + 1),
        other => panic!("unexpected: {:?}", other),
    }
    let state = downloader.begin("https://example.com/doc.pdf").unwrap();
    match downloader.step(state, Event::Headers(Some(MAX_PDF_SIZE as u64))) {
        Next::ReadBody { state } => assert_eq!(state.attempt, 1),
        other => panic!("unexpected: {:?}", other),
    }
}

#[test]
fn body_over_the_limit_gives_a_size_error_and_no_bytes() {
    let downloader = PdfDownloader::with_limits(8, 30, 3);
    let state = DownloadState { url: "https://example.com/doc.pdf".to_string(), attempt: 1 };
    match downloader.step(state, Event::Body(vec![0; 9])) {
        Next::Done(Err(DownloadError::TooLarge(size))) => assert_eq!(size, 9),
        other => panic!("unexpected: {:?}", other),
    }
    let state = DownloadState { url: "https://example.com/doc.pdf".to_string(), attempt: 1 };
    match downloader.step(state, Event::Body(vec![7; 8])) {
        Next::Done(Ok(bytes)) => assert_eq!(bytes, vec![7; 8]),
        other => panic!("unexpected: {:?}", other),
    }
}

#[test]
fn body_is_checked_whatever_was_declared() {
    let downloader = PdfDownloader::with_limits(8, 30, 3);
    let state = DownloadState { url: "https://example.com/doc.pdf".to_string(), attempt: 2 };
    let state = match downloader.step(state, Event::Headers(Some(4))) {
        Next::ReadBody { state } => state,
        other => panic!("unexpected: {:?}", other),
    };
    match downloader.step(state, Event::Body(vec![1; 100])) {
        Next::Done(Err(DownloadError::TooLarge(size))) => assert_eq!(size, 100),
        other => panic!("unexpected: {:?}", other),
    }
}

#[test]
fn waits_double() {
    assert_eq!(backoff(0), 1);
    assert_eq!(backoff(1), 1);
    assert_eq!(backoff(2), 2);
    assert_eq!(backoff(3), 4);
    assert_eq!(backoff(4), 8);
    assert_eq!(backoff(11), 1024);
    assert_eq!(backoff(64), 1u64 << 63);
}

#[test]
fn waits_stop_at_the_greatest_number() {
    assert_eq!(backoff(65), u64::MAX);
    assert_eq!(backoff(1000), u64::MAX);
    assert_eq!(backoff(usize::MAX), u64::MAX);
}

#[test]
fn default_downloader_has_the_standard_limits() {
    let downloader = PdfDownloader::default();
    assert_eq!(downloader.max_size(), MAX_PDF_SIZE);
    assert_eq!(downloader.max_retries(), MAX_RETRIES);
}

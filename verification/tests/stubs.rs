use engagic_core::conductor::Conductor;
use engagic_core::pdf::extractor::{PdfExtractionResult, PdfExtractor};
use engagic_core::rate_limiter::RateLimiter;

#[test]
fn lib_test_imports() {
    let _extractor = PdfExtractor::new();
    let _result = PdfExtractionResult { text: String::new(), page_count: 0, pages_processed: 0 };
    let _conductor = Conductor::new();
}

#[test]
fn conductor_starts_and_stops() {
    let mut conductor = Conductor::new();
    assert!(!conductor.is_running());
    conductor.start();
    assert!(conductor.is_running());
    conductor.start();
    assert!(conductor.is_running());
    conductor.stop();
    assert!(!conductor.is_running());
    conductor.stop();
    assert!(!conductor.is_running());
    assert!(!Conductor::default().is_running());
}

#[test]
fn rate_limiter_can_be_made() {
    let _limiter = RateLimiter::new();
    let _other = RateLimiter::default();
}

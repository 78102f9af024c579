use dvault::file::File;
use dvault::preview::{get_preview_type, PreviewType};

fn get_file(mime: &str) -> File {
    File { file_type: mime.to_owned(), ..File::default() }
}

#[test]
fn test_preview_type_img() {
    assert_eq!(get_preview_type(&get_file("image/png")), PreviewType::Image)
}

#[test]
fn test_preview_type_text() {
    assert_eq!(get_preview_type(&get_file("text/plain")), PreviewType::Text)
}

#[test]
fn test_preview_type_fallback_invalid() {
    assert_eq!(get_preview_type(&get_file("applicatio")), PreviewType::Fallback)
}

#[test]
fn test_preview_type_fallback() {
    assert_eq!(get_preview_type(&get_file("application/pdf")), PreviewType::Fallback)
}

#[test]
fn test_preview_type_video() {
    assert_eq!(get_preview_type(&get_file("video/mp4")), PreviewType::Video)
}

#[test]
fn test_preview_type_fail() {
    assert_ne!(get_preview_type(&get_file("video/mp4")), PreviewType::Text)
}

#[test]
fn raw_preview_for_pdf_and_audio() {
    assert!(dvault::preview::is_raw_preview_file(&get_file("application/pdf")));
    assert!(dvault::preview::is_raw_preview_file(&get_file("audio/mpeg")));
    assert!(!dvault::preview::is_raw_preview_file(&get_file("image/png")));
}

#[test]
fn raw_agent_matching() {
    let agents = Some(vec!["curl".to_string(), "wget".to_string()]);
    let agent = "cURL/8.0".to_string();
    assert!(dvault::preview::check_is_raw_agent(Some(&agent), &agents));
    let browser = "Mozilla/5.0".to_string();
    assert!(!dvault::preview::check_is_raw_agent(Some(&browser), &agents));
    assert!(!dvault::preview::check_is_raw_agent(None, &agents));
    assert!(!dvault::preview::check_is_raw_agent(Some(&agent), &None));
}

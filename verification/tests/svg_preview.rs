use edit_prediction_context::svg_preview::extension;
use edit_prediction_context::svg_preview::SvgPreviewMode;
use edit_prediction_context::svg_preview::SvgPreviewView;
use std::path::Path;

fn is_svg_file(path: &str) -> bool {
    SvgPreviewView::is_svg_file(path)
}

#[test]
fn svg_files_are_known_by_their_extension() {
    assert!(is_svg_file("/icons/logo.svg"));
    assert!(is_svg_file("logo.SVG"));
    assert!(is_svg_file("a.b.SvG"));
    assert!(is_svg_file("dir.svg/"));
    assert!(is_svg_file("/x/..svg"));
    assert!(!is_svg_file("/icons/logo.png"));
    assert!(!is_svg_file("/icons/svg"));
    assert!(!is_svg_file(".svg"));
    assert!(!is_svg_file("logo.svg/.."));
    assert!(!is_svg_file("logo.svgz"));
    assert!(!is_svg_file("logo.sv"));
    assert!(!is_svg_file("logo.\u{17f}vg"));
    assert!(!is_svg_file(""));
}

#[test]
fn extension_agrees_with_std() {
    for path in [
        "a.txt", "a", ".a", "a.", "a.b.c", "/x/y.tar.gz", "..", "/", "x/.hidden.svg", "x.svg/",
        "", "...", "a..b",
    ] {
        let expected = Path::new(path)
            .extension()
            .map(|extension| extension.to_str().unwrap().to_string());
        assert_eq!(extension(path), expected);
    }
}

#[test]
fn tab_of_the_preview() {
    let mut view = SvgPreviewView {
        mode: SvgPreviewMode::Follow,
        file_name: Some("logo.svg".to_string()),
    };
    assert_eq!(view.tab_content_text(), "Preview logo.svg");
    assert_eq!(view.telemetry_event_text(), Some("svg preview: open"));
    view.file_name = None;
    assert_eq!(view.tab_content_text(), "SVG Preview");
    assert_ne!(view.mode, SvgPreviewMode::Default);
}

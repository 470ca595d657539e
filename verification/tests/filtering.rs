use desktop_entry_filter::mime::filter_mime_value;
use desktop_entry_filter::model::{validate, Attr, DesktopError, Document, Section};
use desktop_entry_filter::pipeline::{process_bytes, process_document};
use desktop_entry_filter::render::render;

fn attr(key: &str, value: &str) -> Attr {
    Attr { key: key.to_string(), param: None, values: vec![value.to_string()] }
}

fn section(name: &str, attrs: Vec<Attr>) -> Section {
    Section { name: name.to_string(), attrs }
}

fn run(input: &str) -> Result<String, DesktopError> {
    process_bytes(input.as_bytes())
}

#[test]
fn clean_list_is_only_normalized() {
    let out = run("[Desktop Entry]\nMimeType=image/png;image/jpeg;\n").unwrap();
    assert_eq!(out, "[Desktop Entry]\nMimeType=image/png;image/jpeg\n");
}

#[test]
fn denylisted_entries_removed() {
    let out = run(
        "[Desktop Entry]\nType=Application\nName=Viewer\nMimeType=text/html;application/pdf;image/png;\n",
    )
    .unwrap();
    assert_eq!(out, "[Desktop Entry]\nType=Application\nName=Viewer\nMimeType=image/png\n");
}

#[test]
fn missing_desktop_entry_section_is_structure_error() {
    let r = run("[Other]\nMimeType=image/png;\n");
    assert!(matches!(r, Err(DesktopError::Structure)));
}

#[test]
fn two_sections_is_structure_error() {
    let r = run("[Desktop Entry]\nMimeType=image/png;\n\n[Desktop Action foo]\nName=x\n");
    assert!(matches!(r, Err(DesktopError::Structure)));
}

#[test]
fn malformed_token_is_reported_with_the_token() {
    let r = run("[Desktop Entry]\nMimeType=notamimetype\n");
    match r {
        Err(DesktopError::MalformedMediaType(t)) => assert_eq!(t, "notamimetype"),
        other => panic!("expected a malformed media type error, got {:?}", other.is_ok()),
    }
}

#[test]
fn malformed_token_after_good_ones_is_still_an_error() {
    let r = run("[Desktop Entry]\nMimeType=image/png;stillnotamimetype;image/jpeg\n");
    match r {
        Err(DesktopError::MalformedMediaType(t)) => assert_eq!(t, "stillnotamimetype"),
        other => panic!("expected a malformed media type error, got {:?}", other.is_ok()),
    }
}

#[test]
fn processing_twice_gives_the_same_output() {
    let input = "[Desktop Entry]\nName=Viewer\nIcon=viewer\nNoDisplay=true\nMimeType=text/plain;image/png;application/pdf;\n";
    let once = run(input).unwrap();
    let twice = run(&once).unwrap();
    assert_eq!(once, twice);
}

#[test]
fn non_allowlisted_keys_are_dropped() {
    let out = run("[Desktop Entry]\nName=Viewer\nNoDisplay=true\nMimeType=image/png\n").unwrap();
    assert_eq!(out, "[Desktop Entry]\nName=Viewer\nMimeType=image/png\n");
    assert!(!out.contains("NoDisplay"));
}

#[test]
fn missing_mime_type_is_reported() {
    let r = run("[Desktop Entry]\nName=Viewer\n");
    assert!(matches!(r, Err(DesktopError::MissingAttribute)));
}

#[test]
fn invalid_bytes_are_a_parse_error() {
    let r = process_bytes(b"[Desktop Entry]\nName=\xff\xfe\n");
    assert!(matches!(r, Err(DesktopError::Parse)));
}

#[test]
fn denylist_matching_ignores_ascii_case() {
    let out = run("[Desktop Entry]\nMimeType=TEXT/HTML;image/png;\n").unwrap();
    assert_eq!(out, "[Desktop Entry]\nMimeType=image/png\n");
}

#[test]
fn empty_mime_list_stays_empty() {
    let out = run("[Desktop Entry]\nMimeType=\n").unwrap();
    assert_eq!(out, "[Desktop Entry]\nMimeType=\n");
}

#[test]
fn fully_denylisted_list_renders_empty() {
    let out = run("[Desktop Entry]\nMimeType=text/plain;\n").unwrap();
    assert_eq!(out, "[Desktop Entry]\nMimeType=\n");
}

#[test]
fn keys_are_reordered_to_the_fixed_order() {
    let out =
        run("[Desktop Entry]\nIcon=app\nName=Viewer\nType=Application\nMimeType=image/png\n")
            .unwrap();
    assert_eq!(out, "[Desktop Entry]\nType=Application\nName=Viewer\nIcon=app\nMimeType=image/png\n");
}

#[test]
fn suffixed_subtype_is_denylisted_exactly() {
    let out = run("[Desktop Entry]\nMimeType=application/xhtml+xml;image/svg+xml;\n").unwrap();
    assert_eq!(out, "[Desktop Entry]\nMimeType=image/svg+xml\n");
}

#[test]
fn every_denylist_entry_is_stripped() {
    let list = "text/html;text/rtf;application/vnd.ms-word.document.macroEnabled.12;text/plain;\
application/vnd.openxmlformats-officedocument.wordprocessingml.document;text/x-markdown;\
application/vnd.oasis.opendocument.text;application/pdf;application/xhtml+xml;application/x-ruby;\
image/png";
    let out = run(&format!("[Desktop Entry]\nMimeType={}\n", list)).unwrap();
    assert_eq!(out, "[Desktop Entry]\nMimeType=image/png\n");
}

#[test]
fn filter_mime_value_keeps_order_of_survivors() {
    let r = filter_mime_value("image/png;text/html;image/jpeg").unwrap();
    assert_eq!(r, "image/png;image/jpeg");
}

#[test]
fn filter_mime_value_rejects_empty_token_in_middle() {
    let r = filter_mime_value("image/png;;image/jpeg");
    match r {
        Err(DesktopError::MalformedMediaType(t)) => assert_eq!(t, ""),
        other => panic!("expected a malformed media type error, got {:?}", other.is_ok()),
    }
}

#[test]
fn validate_accepts_only_one_desktop_entry_section() {
    let doc = Document { sections: vec![section("Desktop Entry", vec![])] };
    assert!(validate(&doc).is_ok());
    let doc = Document { sections: vec![section("Desktop Entry", vec![]), section("Extra", vec![])] };
    assert!(matches!(validate(&doc), Err(DesktopError::Structure)));
    let doc = Document { sections: vec![section("Wrong", vec![])] };
    assert!(matches!(validate(&doc), Err(DesktopError::Structure)));
    let doc = Document { sections: vec![] };
    assert!(matches!(validate(&doc), Err(DesktopError::Structure)));
}

#[test]
fn render_emits_fixed_order_and_mime_line_last() {
    let s = section(
        "Desktop Entry",
        vec![attr("Exec", "viewer %u"), attr("Name", "Viewer"), attr("Hidden", "true")],
    );
    let out = render(&s, "image/png");
    assert_eq!(out, "[Desktop Entry]\nName=Viewer\nExec=viewer %u\nMimeType=image/png\n");
}

#[test]
fn localized_keys_do_not_shadow_the_plain_key() {
    let mut loc = attr("Name", "Visionneuse");
    loc.param = Some("fr".to_string());
    let s = section("Desktop Entry", vec![loc, attr("Name", "Viewer")]);
    let out = render(&s, "");
    assert_eq!(out, "[Desktop Entry]\nName=Viewer\nMimeType=\n");
}

#[test]
fn process_document_matches_process_bytes() {
    let doc = Document {
        sections: vec![section(
            "Desktop Entry",
            vec![attr("Name", "Viewer"), attr("MimeType", "text/html;image/png")],
        )],
    };
    let out = process_document(&doc).unwrap();
    assert_eq!(out, "[Desktop Entry]\nName=Viewer\nMimeType=image/png\n");
}

#[test]
fn error_messages_name_the_cause() {
    let m = DesktopError::MalformedMediaType("oops".to_string()).message();
    assert_eq!(m, "malformed media type: oops");
    assert_eq!(DesktopError::Parse.message(), "file is not a well-formed desktop entry");
    assert_eq!(
        DesktopError::Structure.message(),
        "expected exactly one section, named [Desktop Entry]"
    );
    assert_eq!(DesktopError::MissingAttribute.message(), "no MimeType attribute in section");
}

use firmina::cades::Cades;
use firmina::cli::{choose_extract_path, extract, extract_output_path, signed_output_path};
use firmina::error::CadesError;

#[test]
fn signed_path_adds_the_extension() {
    assert_eq!(signed_output_path("dir/a.pdf", None, false), "dir/a.pdf.p7m");
    assert_eq!(signed_output_path("dir/a.pdf", None, true), "dir/a.pdf.p7s");
    assert_eq!(signed_output_path("dir/a.pdf", Some("out.p7m".to_string()), true), "out.p7m");
}

#[test]
fn extract_path_strips_p7m_beside_the_input() {
    assert_eq!(extract_output_path("dir/a.pdf.p7m", None), "dir/a.pdf");
    assert_eq!(extract_output_path("dir/a.bin", None), "dir/a.bin.out");
    assert_eq!(extract_output_path("x.p7m", Some("y".to_string())), "y");
}

#[test]
fn extract_path_choice() {
    assert_eq!(
        choose_extract_path(None, Some("p7m".to_string()), "a".to_string(), "a.p7m.out".to_string()),
        "a"
    );
    assert_eq!(
        choose_extract_path(None, Some("p7s".to_string()), "a".to_string(), "a.p7s.out".to_string()),
        "a.p7s.out"
    );
    assert_eq!(choose_extract_path(None, None, "a".to_string(), "a.out".to_string()), "a.out");
    assert_eq!(
        choose_extract_path(Some("o".to_string()), Some("p7m".to_string()), "a".to_string(), "b".to_string()),
        "o"
    );
}

#[test]
fn extract_gives_the_content() {
    let bytes = Cades::new(b"payload".to_vec()).finalize_attached().unwrap();
    let (path, content) = extract("f.txt.p7m", None, &bytes).unwrap();
    assert_eq!(path, "f.txt");
    assert_eq!(content, b"payload".to_vec());
    let detached = Cades::new(b"payload".to_vec()).finalize_detached().unwrap();
    assert_eq!(extract("f.p7s", None, &detached), Err(CadesError::EncapsulatedContentMissing));
    assert_eq!(extract("f.p7m", None, &[1, 2, 3]), Err(CadesError::Decode));
}

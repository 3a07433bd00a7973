use mail_pilot::filename::{extract_company_name_from_path, extract_filename_parts, get_mime_type};

#[test]
fn test_extract_company_name() {
    assert_eq!(
        extract_company_name_from_path("株式会社サンプル_請求書.pdf"),
        Some("株式会社サンプル".to_string())
    );
    assert_eq!(
        extract_company_name_from_path("テスト商事 報告書.docx"),
        Some("テスト商事".to_string())
    );
    // Space is a delimiter, so the first space-separated part is returned.
    assert_eq!(
        extract_company_name_from_path("Example Corp(2024).pdf"),
        Some("Example".to_string())
    );
    assert_eq!(
        extract_company_name_from_path("請求書_日興金属株式会社_20251224.pdf"),
        Some("日興金属株式会社".to_string())
    );
    assert_eq!(
        extract_company_name_from_path("納品書_テスト商事_2024.pdf"),
        Some("テスト商事".to_string())
    );
    assert_eq!(
        extract_company_name_from_path("見積書_ABC株式会社.pdf"),
        Some("ABC株式会社".to_string())
    );
}

#[test]
fn extract_company_name_uses_lowercased_keywords() {
    // The English keywords match case-insensitively, so the lowercasing of
    // the first part must actually happen.
    assert_eq!(
        extract_company_name_from_path("INVOICE_Acme Ltd_2024.pdf"),
        Some("Acme".to_string())
    );
    assert_eq!(
        extract_company_name_from_path("Report_Acme.pdf"),
        Some("Acme".to_string())
    );
    // A space after the keyword delimits just like an underscore.
    assert_eq!(
        extract_company_name_from_path("請求書_Nikko Metals_2024.pdf"),
        Some("Nikko".to_string())
    );
}

#[test]
fn extract_company_name_splits_on_full_width_spaces() {
    assert_eq!(
        extract_company_name_from_path("株式会社サンプル\u{3000}請求書.pdf"),
        Some("株式会社サンプル".to_string())
    );
}

#[test]
fn extract_company_name_handles_paths_and_empty_inputs() {
    assert_eq!(
        extract_company_name_from_path("/tmp/docs/請求書_日興金属_20251224.pdf"),
        Some("日興金属".to_string())
    );
    assert_eq!(
        extract_company_name_from_path("C:\\docs\\株式会社サンプル_請求書.pdf"),
        Some("株式会社サンプル".to_string())
    );
    assert_eq!(extract_company_name_from_path(""), None);
    // Trailing separators are ignored, as Path::file_name reads a path.
    assert_eq!(extract_company_name_from_path("docs/"), Some("docs".to_string()));
    assert_eq!(
        extract_company_name_from_path("dir/name.pdf/"),
        Some("name".to_string())
    );
    assert_eq!(extract_company_name_from_path("a/.."), None);
    assert_eq!(extract_company_name_from_path("."), None);
    assert_eq!(extract_company_name_from_path("///"), None);
    assert_eq!(extract_company_name_from_path("___.pdf"), None);
}

#[test]
fn test_extract_filename_parts() {
    assert_eq!(
        extract_filename_parts("日興金属_納品書_2024.pdf"),
        vec!["日興金属".to_string(), "納品書".to_string(), "2024".to_string()]
    );
}

#[test]
fn extract_filename_parts_splits_on_brackets_and_dashes() {
    assert_eq!(
        extract_filename_parts("ACME (2024)【final】a-b.txt"),
        vec![
            "ACME".to_string(),
            "2024".to_string(),
            "final".to_string(),
            "a".to_string(),
            "b".to_string()
        ]
    );
    assert_eq!(extract_filename_parts(""), Vec::<String>::new());
    assert_eq!(
        extract_filename_parts("日興金属\u{3000}納品書.pdf"),
        vec!["日興金属".to_string(), "納品書".to_string()]
    );
}

#[test]
fn mime_types_follow_the_extension() {
    assert_eq!(get_mime_type("report.pdf"), "application/pdf");
    assert_eq!(get_mime_type("REPORT.PDF"), "application/pdf");
    assert_eq!(get_mime_type("a.docx"),
        "application/vnd.openxmlformats-officedocument.wordprocessingml.document");
    assert_eq!(get_mime_type("a.xlsx"),
        "application/vnd.openxmlformats-officedocument.spreadsheetml.sheet");
    assert_eq!(get_mime_type("photo.JPG"), "image/jpeg");
    assert_eq!(get_mime_type("photo.jpeg"), "image/jpeg");
    assert_eq!(get_mime_type("data.csv"), "text/csv");
    assert_eq!(get_mime_type("archive.zip"), "application/zip");
    assert_eq!(get_mime_type("unknown.xyz"), "application/octet-stream");
    assert_eq!(get_mime_type("no_extension"), "application/octet-stream");
}

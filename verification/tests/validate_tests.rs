use mail_pilot::models::{Attachment, RecipientData, RecipientInfo};
use mail_pilot::validate::{
    validate_attachment_recipient_match, validate_body_recipient_match,
    validate_no_cross_recipient_attachments, validate_send_safety,
};

fn master_record(id: &str, company: &str, name: &str, email: &str) -> RecipientData {
    RecipientData {
        id: id.to_string(),
        company: company.to_string(),
        name: name.to_string(),
        email: email.to_string(),
    }
}

fn slot(email: &str, body: &str, locked_id: Option<&str>) -> RecipientInfo {
    RecipientInfo {
        email: email.to_string(),
        body: body.to_string(),
        locked_recipient_id: locked_id.map(|s| s.to_string()),
        locked_company: None,
    }
}

fn attachment(file_name: &str, enabled: bool, company: Option<&str>, slot: Option<usize>) -> Attachment {
    Attachment {
        file_path: String::new(),
        file_name: file_name.to_string(),
        enabled,
        data: String::new(),
        mime_type: String::new(),
        linked_company: company.map(|s| s.to_string()),
        linked_recipient_index: slot,
    }
}

#[test]
fn duplicate_emails_yield_exactly_one_warning() {
    let slots = vec![
        slot("dup@example.com", "", None),
        slot("dup@example.com", "", None),
        slot("", "", None),
    ];
    let warnings = validate_send_safety(&slots, &[], &[]);
    assert_eq!(warnings.len(), 1);
    assert!(warnings[0].contains("dup@example.com"));
    assert!(warnings[0].contains("複数の宛先"));
}

#[test]
fn a_triple_duplicate_is_reported_once() {
    let slots = vec![
        slot("dup@example.com", "", None),
        slot("dup@example.com", "", None),
        slot("dup@example.com", "", None),
    ];
    let warnings = validate_send_safety(&slots, &[], &[]);
    assert_eq!(warnings.len(), 1);
    assert!(warnings[0].contains("dup@example.com"));
}

#[test]
fn each_duplicated_address_is_reported_at_its_first_slot() {
    let slots = vec![
        slot("a@example.com", "", None),
        slot("b@example.com", "", None),
        slot("a@example.com", "", None),
    ];
    let warnings = validate_send_safety(&slots, &[], &[]);
    assert_eq!(warnings.len(), 1);
    assert!(warnings[0].contains("a@example.com"));
}

#[test]
fn lock_mismatch_yields_one_warning_for_that_slot() {
    let master = vec![master_record("7", "ACME", "Taro", "x@example.com")];
    let slots = vec![
        slot("x@example.com", "ACME Taro 様", Some("5")),
        slot("", "", None),
        slot("", "", None),
    ];
    let warnings = validate_send_safety(&slots, &master, &[]);
    assert_eq!(warnings.len(), 1);
    assert!(warnings[0].starts_with("[宛先1]"));
    assert!(warnings[0].contains("ロックされた宛先"));
}

#[test]
fn matching_lock_and_body_yield_no_warnings() {
    let master = vec![master_record("7", "ACME", "Taro", "x@example.com")];
    let slots = vec![
        slot("x@example.com", "acme御中", Some("7")),
        slot("", "", None),
        slot("", "", None),
    ];
    let warnings = validate_send_safety(&slots, &master, &[]);
    assert_eq!(warnings, Vec::<String>::new());
}

#[test]
fn attachment_company_mismatch_is_reported_per_file() {
    let rec = master_record("1", "日興金属株式会社", "田中", "a@example.com");
    let info = RecipientInfo::default();
    let atts = vec![
        attachment("good.pdf", true, Some("日興金属"), None),
        attachment("bad.pdf", true, Some("株式会社ABC"), None),
        attachment("off.pdf", false, Some("株式会社ABC"), None),
        attachment("plain.pdf", true, None, None),
    ];
    let r = validate_attachment_recipient_match(&atts, &info, Some(&rec));
    let errs = r.unwrap_err();
    assert_eq!(errs.len(), 1);
    assert!(errs[0].contains("bad.pdf"));
    assert!(errs[0].contains("株式会社ABC"));
}

#[test]
fn attachment_match_ignores_spaces_and_case() {
    let rec = master_record("1", "ACME Ltd", "Taro", "a@example.com");
    let info = RecipientInfo::default();
    let atts = vec![attachment("a.pdf", true, Some("acmeltd"), None)];
    assert!(validate_attachment_recipient_match(&atts, &info, Some(&rec)).is_ok());
}

#[test]
fn attachment_with_guess_but_no_resolved_recipient_warns() {
    let info = RecipientInfo::default();
    let atts = vec![attachment("a.pdf", true, Some("ACME"), None)];
    let errs = validate_attachment_recipient_match(&atts, &info, None).unwrap_err();
    assert_eq!(errs.len(), 1);
}

#[test]
fn body_check_requires_company_or_name() {
    let rec = master_record("1", "日興金属", "田中", "a@example.com");
    assert!(validate_body_recipient_match("日興 金属 御中", Some(&rec)).is_ok());
    assert!(validate_body_recipient_match("田中様", Some(&rec)).is_ok());
    let errs = validate_body_recipient_match("株式会社ABC御中", Some(&rec)).unwrap_err();
    assert_eq!(errs.len(), 1);
    assert!(errs[0].contains("日興金属"));
    assert!(errs[0].contains("田中"));
}

#[test]
fn body_check_treats_empty_fields_as_satisfied() {
    let rec = master_record("1", "", "", "a@example.com");
    assert!(validate_body_recipient_match("anything at all", Some(&rec)).is_ok());
    assert!(validate_body_recipient_match("x", None).is_ok());
}

#[test]
fn body_check_is_case_insensitive() {
    let rec = master_record("1", "acme", "t", "a@example.com");
    assert!(validate_body_recipient_match("Dear ACME western branch", Some(&rec)).is_ok());
}

#[test]
fn cross_slot_attachments_are_reported_with_their_slot_number() {
    let atts = vec![
        attachment("mine.pdf", true, None, Some(0)),
        attachment("other.pdf", true, None, Some(1)),
        attachment("off.pdf", false, None, Some(2)),
        attachment("free.pdf", true, None, None),
    ];
    let errs = validate_no_cross_recipient_attachments(&[], &atts, 0).unwrap_err();
    assert_eq!(errs.len(), 1);
    assert!(errs[0].contains("other.pdf"));
    assert!(errs[0].contains("宛先2"));
}

#[test]
fn send_safety_prefixes_warnings_with_slot_numbers() {
    let master = vec![
        master_record("1", "ACME", "Taro", "a@example.com"),
        master_record("2", "Globex", "Jiro", "b@example.com"),
    ];
    let slots = vec![
        slot("a@example.com", "nothing relevant", Some("1")),
        slot("b@example.com", "no names here", Some("2")),
        slot("", "", None),
    ];
    let warnings = validate_send_safety(&slots, &master, &[]);
    assert_eq!(warnings.len(), 2);
    assert!(warnings[0].starts_with("[宛先1]"));
    assert!(warnings[1].starts_with("[宛先2]"));
    assert!(warnings[0].contains("本文に"));
}

#[test]
fn send_safety_checks_attachments_of_each_slot() {
    let master = vec![master_record("1", "ACME", "Taro", "a@example.com")];
    let slots = vec![
        slot("a@example.com", "acme", Some("1")),
        slot("", "", None),
        slot("", "", None),
    ];
    let atts = vec![
        attachment("wrong.pdf", true, Some("Globex"), Some(0)),
        attachment("elsewhere.pdf", true, Some("Globex"), Some(1)),
    ];
    let warnings = validate_send_safety(&slots, &master, &atts);
    assert_eq!(warnings.len(), 1);
    assert!(warnings[0].starts_with("[宛先1]"));
    assert!(warnings[0].contains("wrong.pdf"));
}

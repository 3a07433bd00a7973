use mail_pilot::attachment::{build_attachment, within_attachment_limit, MAX_ATTACHMENT_BYTES};
use mail_pilot::models::{
    Attachment, LinkingData, MailDraft, RecipientData, RecipientInfo, Signature, Template,
};
use mail_pilot::slots::{
    apply_template, build_pending_send, check_credentials, confirmation_input_matches,
    find_linked_template, find_recipient_by_company, find_template_by_parts,
    parse_recipient_csv_line, select_recipient, unlock_recipient,
};

fn master_record(id: &str, company: &str, name: &str, email: &str) -> RecipientData {
    RecipientData {
        id: id.to_string(),
        company: company.to_string(),
        name: name.to_string(),
        email: email.to_string(),
    }
}

fn template(id: &str, name: &str, subject: &str, body: &str) -> Template {
    Template {
        id: id.to_string(),
        name: name.to_string(),
        subject: subject.to_string(),
        body: body.to_string(),
    }
}

#[test]
fn mail_draft_starts_with_three_blank_slots() {
    let draft = MailDraft::default();
    assert_eq!(draft.recipients.len(), 3);
    for slot in &draft.recipients {
        assert!(slot.email.is_empty());
        assert!(slot.locked_recipient_id.is_none());
    }
    assert!(draft.subject.is_empty());
    assert!(draft.attachments.is_empty());
}

#[test]
fn selecting_a_recipient_locks_the_slot_and_applies_the_linked_template() {
    let mut draft = MailDraft::default();
    let mut sri: Option<usize> = None;
    let mut sti: Option<usize> = None;
    let master = vec![master_record("1", "ACME", "Taro", "taro@example.com")];
    let templates = vec![template("10", "挨拶", "こんにちは", "Dear {{name}} of {{company}}")];
    let linkings = vec![LinkingData {
        recipient_id: "1".to_string(),
        template_id: "10".to_string(),
    }];
    let blocked = select_recipient(
        &mut draft, &mut sri, &mut sti, &master, &templates, &linkings, 0, 0, false,
    );
    assert!(!blocked);
    assert_eq!(sri, Some(0));
    assert_eq!(sti, Some(0));
    assert_eq!(draft.subject, "こんにちは");
    let slot = &draft.recipients[0];
    assert_eq!(slot.email, "taro@example.com");
    assert_eq!(slot.locked_recipient_id.as_deref(), Some("1"));
    assert_eq!(slot.locked_company.as_deref(), Some("ACME"));
    assert_eq!(slot.body, "Dear Taro of ACME");
}

#[test]
fn a_locked_slot_blocks_reselection_unless_forced() {
    let mut draft = MailDraft::default();
    let mut sri: Option<usize> = None;
    let mut sti: Option<usize> = None;
    let master = vec![
        master_record("1", "ACME", "Taro", "taro@example.com"),
        master_record("2", "Globex", "Jiro", "jiro@example.com"),
    ];
    let templates: Vec<Template> = Vec::new();
    let linkings: Vec<LinkingData> = Vec::new();
    assert!(!select_recipient(
        &mut draft, &mut sri, &mut sti, &master, &templates, &linkings, 0, 0, false
    ));
    let blocked = select_recipient(
        &mut draft, &mut sri, &mut sti, &master, &templates, &linkings, 0, 1, false,
    );
    assert!(blocked);
    assert_eq!(draft.recipients[0].email, "taro@example.com");
    let forced = select_recipient(
        &mut draft, &mut sri, &mut sti, &master, &templates, &linkings, 0, 1, true,
    );
    assert!(!forced);
    assert_eq!(draft.recipients[0].email, "jiro@example.com");
    assert_eq!(draft.recipients[0].locked_recipient_id.as_deref(), Some("2"));
}

#[test]
fn unlock_clears_the_lock_but_keeps_the_slot_content() {
    let mut draft = MailDraft::default();
    draft.recipients[0] = RecipientInfo {
        email: "a@x".to_string(),
        body: "B".to_string(),
        locked_recipient_id: Some("1".to_string()),
        locked_company: Some("ACME".to_string()),
    };
    unlock_recipient(&mut draft, 0);
    let slot = &draft.recipients[0];
    assert_eq!(slot.email, "a@x");
    assert_eq!(slot.body, "B");
    assert!(slot.locked_recipient_id.is_none());
    assert!(slot.locked_company.is_none());
}

#[test]
fn applying_a_template_substitutes_the_selected_recipient() {
    let mut draft = MailDraft::default();
    let templates = vec![template("10", "t", "件名", "{{name}}様")];
    let rec = master_record("1", "ACME", "田中", "a@x");
    apply_template(&mut draft, &templates, 0, 0, Some(&rec));
    assert_eq!(draft.subject, "件名");
    assert_eq!(draft.recipients[0].body, "田中様");
    apply_template(&mut draft, &templates, 0, 1, None);
    assert_eq!(draft.recipients[1].body, "{{name}}様");
}

#[test]
fn linked_template_lookup_follows_linking_then_template_id() {
    let templates = vec![template("10", "a", "s", "b"), template("11", "b", "s", "b")];
    let linkings = vec![
        LinkingData { recipient_id: "1".to_string(), template_id: "11".to_string() },
        LinkingData { recipient_id: "1".to_string(), template_id: "10".to_string() },
    ];
    assert_eq!(find_linked_template(&linkings, &templates, &"1".to_string()), Some(1));
    assert_eq!(find_linked_template(&linkings, &templates, &"2".to_string()), None);
    let no_such = vec![LinkingData {
        recipient_id: "1".to_string(),
        template_id: "99".to_string(),
    }];
    assert_eq!(find_linked_template(&no_such, &templates, &"1".to_string()), None);
}

#[test]
fn recipient_auto_match_uses_company_name_and_their_join() {
    let master = vec![
        master_record("1", "金属株式会社", "日興", "a@x"),
        master_record("2", "日興金属株式会社", "田中", "b@x"),
    ];
    // The joined name and company of the first record contains the guess.
    assert_eq!(find_recipient_by_company(&master, "日興金属"), Some(0));
    assert_eq!(find_recipient_by_company(&master, "日興金属株式会社"), Some(0));
    assert_eq!(find_recipient_by_company(&master, "田中"), Some(1));
    assert_eq!(find_recipient_by_company(&master, "ありえない商事"), None);
    // Space differences do not matter.
    assert_eq!(find_recipient_by_company(&master, "日興 金属 株式会社"), Some(0));
}

#[test]
fn template_auto_match_compares_names_with_filename_parts() {
    let templates = vec![
        template("1", "請求書送付", "s", "b"),
        template("2", "納品書", "s", "b"),
    ];
    let parts = vec!["日興金属".to_string(), "納品書".to_string(), "2024".to_string()];
    assert_eq!(find_template_by_parts(&templates, &parts), Some(1));
    let none = vec!["nothing".to_string()];
    assert_eq!(find_template_by_parts(&templates, &none), None);
}

#[test]
fn pending_send_snapshots_resolved_recipients_and_attachments() {
    let master = vec![master_record("1", "ACME", "Taro", "taro@example.com")];
    let slots = vec![
        RecipientInfo {
            email: "taro@example.com".to_string(),
            body: "Hello".to_string(),
            locked_recipient_id: Some("1".to_string()),
            locked_company: Some("ACME".to_string()),
        },
        RecipientInfo::default(),
        RecipientInfo {
            email: "free@example.com".to_string(),
            body: "Hi".to_string(),
            locked_recipient_id: None,
            locked_company: None,
        },
    ];
    let mut a0 = Attachment::default();
    a0.file_name = "mine.pdf".to_string();
    a0.linked_recipient_index = Some(0);
    let mut a1 = Attachment::default();
    a1.file_name = "other.pdf".to_string();
    a1.linked_recipient_index = Some(2);
    let mut a2 = Attachment::default();
    a2.file_name = "off.pdf".to_string();
    a2.enabled = false;
    a2.linked_recipient_index = Some(0);
    let sig = Signature { name: "s".to_string(), content: "-- ACME".to_string() };
    let p = build_pending_send(
        &slots,
        &master,
        &[a0, a1, a2],
        &"件名".to_string(),
        Some(&sig),
    );
    assert_eq!(p.subject, "件名");
    assert_eq!(p.recipients.len(), 2);
    assert_eq!(p.recipients[0].email, "taro@example.com");
    assert_eq!(p.recipients[0].company, "ACME");
    assert_eq!(p.recipients[0].name, "Taro");
    assert_eq!(p.recipients[0].body, "Hello\n\n-- ACME");
    assert_eq!(p.recipients[0].attachments, vec!["mine.pdf".to_string()]);
    assert_eq!(p.recipients[1].email, "free@example.com");
    assert_eq!(p.recipients[1].company, "");
    assert_eq!(p.recipients[1].body, "Hi\n\n-- ACME");
    assert_eq!(p.recipients[1].attachments, vec!["other.pdf".to_string()]);

    let no_sig = build_pending_send(&slots, &master, &[], &"件名".to_string(), None);
    assert_eq!(no_sig.recipients[0].body, "Hello");
}

#[test]
fn confirmation_input_matching_is_normalized_and_bidirectional() {
    assert!(confirmation_input_matches("日興金属株式会社", "日興金属株式会社"));
    assert!(confirmation_input_matches("日興金属", "日興金属株式会社"));
    assert!(confirmation_input_matches("日興金属株式会社御中", "日興金属株式会社"));
    assert!(confirmation_input_matches("acme ltd", "ACME Ltd"));
    assert!(!confirmation_input_matches("", "ACME"));
    assert!(!confirmation_input_matches("globex", "ACME"));
}

#[test]
fn credentials_must_match_exactly() {
    let u = "user".to_string();
    let p = "pw".to_string();
    assert!(check_credentials(&u, &p, &"user".to_string(), &"pw".to_string()));
    assert!(!check_credentials(&u, &p, &"user".to_string(), &"other".to_string()));
    assert!(!check_credentials(&u, &p, &"admin".to_string(), &"pw".to_string()));
}

#[test]
fn attachments_are_encoded_and_linked_on_build() {
    let bytes: Vec<u8> = b"hello".to_vec();
    let a = build_attachment("請求書_日興金属_1.pdf", "請求書_日興金属_1.pdf", &bytes, 2);
    assert!(a.enabled);
    assert_eq!(a.data, "aGVsbG8=");
    assert_eq!(a.mime_type, "application/pdf");
    assert_eq!(a.linked_company.as_deref(), Some("日興金属"));
    assert_eq!(a.linked_recipient_index, Some(2));
    let empty: Vec<u8> = Vec::new();
    let b = build_attachment("x.bin", "x.bin", &empty, 0);
    assert_eq!(b.data, "");
    assert_eq!(b.mime_type, "application/octet-stream");
}

#[test]
fn attachment_size_limit_is_fifteen_megabytes() {
    assert_eq!(MAX_ATTACHMENT_BYTES, 15 * 1024 * 1024);
    assert!(within_attachment_limit(MAX_ATTACHMENT_BYTES));
    assert!(!within_attachment_limit(MAX_ATTACHMENT_BYTES + 1));
    assert!(within_attachment_limit(0));
}

#[test]
fn csv_rows_become_trimmed_recipients() {
    let rec = parse_recipient_csv_line(" ACME , Taro , taro@example.com ,extra", 4).unwrap();
    assert_eq!(rec.id, "4");
    assert_eq!(rec.company, "ACME");
    assert_eq!(rec.name, "Taro");
    assert_eq!(rec.email, "taro@example.com");
    assert!(parse_recipient_csv_line("company,name", 1).is_none());
    assert!(parse_recipient_csv_line("", 1).is_none());
    let blank = parse_recipient_csv_line(",,", 12).unwrap();
    assert_eq!(blank.id, "12");
    assert_eq!(blank.company, "");
    assert_eq!(blank.email, "");
}

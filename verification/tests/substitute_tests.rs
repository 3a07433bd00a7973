use mail_pilot::models::RecipientData;
use mail_pilot::substitute::apply_variables;

fn sample_recipient() -> RecipientData {
    RecipientData {
        id: "42".to_string(),
        company: "日興金属株式会社".to_string(),
        name: "田中太郎".to_string(),
        email: "tanaka@example.com".to_string(),
    }
}

#[test]
fn substitutes_all_four_tokens() {
    let rec = sample_recipient();
    let body = "{{name}}様 ({{company}}) <{{email}}> id={{id}}".to_string();
    let out = apply_variables(body, &rec);
    assert_eq!(out, "田中太郎様 (日興金属株式会社) <tanaka@example.com> id=42");
}

#[test]
fn leaves_unrecognized_tokens_untouched() {
    let rec = sample_recipient();
    let out = apply_variables("{{greeting}} {{name}}".to_string(), &rec);
    assert_eq!(out, "{{greeting}} 田中太郎");
}

#[test]
fn empty_fields_become_empty_strings() {
    let rec = RecipientData {
        id: String::new(),
        company: String::new(),
        name: String::new(),
        email: String::new(),
    };
    let out = apply_variables("a{{name}}b{{company}}c{{email}}d{{id}}e".to_string(), &rec);
    assert_eq!(out, "abcde");
}

#[test]
fn substitution_is_idempotent_when_fields_carry_no_tokens() {
    let rec = sample_recipient();
    let body = "{{name}}様、{{company}}宛のご案内です。".to_string();
    let once = apply_variables(body, &rec);
    let twice = apply_variables(once.clone(), &rec);
    assert_eq!(once, twice);
}

#[test]
fn substitution_is_not_idempotent_when_a_field_reintroduces_a_token() {
    let rec = RecipientData {
        id: "1".to_string(),
        company: "{{name}}".to_string(),
        name: "N".to_string(),
        email: "e@x".to_string(),
    };
    // The name pass runs before the company pass, so the token the company
    // field reintroduces survives the first application.
    let once = apply_variables("{{company}}".to_string(), &rec);
    assert_eq!(once, "{{name}}");
    let twice = apply_variables(once.clone(), &rec);
    assert_eq!(twice, "N");
    assert_ne!(once, twice);
    let rec2 = RecipientData {
        id: "{{name}}".to_string(),
        company: "C".to_string(),
        name: "N".to_string(),
        email: "e@x".to_string(),
    };
    let once2 = apply_variables("{{id}}".to_string(), &rec2);
    assert_eq!(once2, "{{name}}");
    let twice2 = apply_variables(once2.clone(), &rec2);
    assert_eq!(twice2, "N");
    assert_ne!(once2, twice2);
}

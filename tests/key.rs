use proof_viz::key::{default_key, KeyField, DEFAULT_PEM, NOTARY_PSE_PEM};

#[test]
fn default_key_decodes() {
    let key = default_key().unwrap();
    assert_eq!(key.sec1.len(), 65);
    assert_eq!(key.sec1[0], 4);
}

#[test]
fn new_field_holds_default_text() {
    let field = KeyField::new();
    assert_eq!(field.text, DEFAULT_PEM);
    assert_eq!(field.error, None);
}

#[test]
fn input_is_trimmed_and_decoded() {
    let mut field = KeyField::new();
    let key = field.input(&format!("  \n{}\n  ", NOTARY_PSE_PEM)).unwrap();
    assert_eq!(field.text, NOTARY_PSE_PEM);
    assert_eq!(field.error, None);
    assert_ne!(key, default_key().unwrap());
}

#[test]
fn bad_input_keeps_error_and_gives_no_key() {
    let mut field = KeyField::new();
    assert!(field.input(" not a key ").is_none());
    assert_eq!(field.text, "not a key");
    assert!(field.error.is_some());
}

#[test]
fn preset_restores_a_known_key() {
    let mut field = KeyField::new();
    let _ = field.input("garbage");
    let key = field.preset(DEFAULT_PEM).unwrap();
    assert_eq!(key, default_key().unwrap());
    assert_eq!(field.text, DEFAULT_PEM);
    assert_eq!(field.error, None);
}

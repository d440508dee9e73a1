use knative::domain::{verify_variants, VariantDecl, VerificationError};

fn decl(name: &str, dependent: bool) -> VariantDecl {
    VariantDecl { name: name.to_string(), dependent }
}

#[test]
fn accepts_one_ready_variant_with_dependents() {
    let variants = vec![
        decl("Ready", false),
        decl("SinkProvided", true),
        decl("Informational", false),
    ];
    assert!(verify_variants(&variants).is_ok());
}

#[test]
fn accepts_succeeded_as_the_top_level_variant() {
    let variants = vec![decl("Succeeded", false), decl("Fetched", true)];
    assert!(verify_variants(&variants).is_ok());
}

#[test]
fn rejects_a_dependent_top_level_variant() {
    let variants = vec![decl("Ready", true), decl("SinkProvided", true)];
    match verify_variants(&variants) {
        Err(VerificationError::NotDependent(name)) => assert_eq!(name, "Ready"),
        other => panic!("expected NotDependent, got {:?}", other),
    }
}

#[test]
fn rejects_two_top_level_variants() {
    let variants = vec![decl("Ready", false), decl("Succeeded", false)];
    match verify_variants(&variants) {
        Err(VerificationError::OneRequiredVariant) => {}
        other => panic!("expected OneRequiredVariant, got {:?}", other),
    }
}

#[test]
fn rejects_a_domain_without_a_top_level_variant() {
    let variants = vec![decl("SinkProvided", true)];
    match verify_variants(&variants) {
        Err(VerificationError::OneRequiredVariant) => {}
        other => panic!("expected OneRequiredVariant, got {:?}", other),
    }
    match verify_variants(&Vec::new()) {
        Err(VerificationError::OneRequiredVariant) => {}
        other => panic!("expected OneRequiredVariant, got {:?}", other),
    }
}

#[test]
fn reports_the_first_violation_in_declaration_order() {
    let variants = vec![decl("Ready", false), decl("Succeeded", true)];
    match verify_variants(&variants) {
        Err(VerificationError::NotDependent(name)) => assert_eq!(name, "Succeeded"),
        other => panic!("expected NotDependent, got {:?}", other),
    }
}

#[test]
fn spells_out_rejections() {
    let e = VerificationError::NotDependent("Ready".to_string());
    assert_eq!(e.message(), "Ready may not be a dependent");
    let e = VerificationError::OneRequiredVariant;
    assert_eq!(
        e.message(),
        "ConditionType must contain only one of either Ready or Succeeded variant"
    );
}

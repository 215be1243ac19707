use morphir_core::ir::v4::access::Access;
use morphir_core::migration::classic_to_v4::{
    migrate_access, migrate_fqname, migrate_name, migrate_path, ClassicAccess, ClassicFQName,
    ClassicName, ClassicPath, EMPTY_NAME,
};
use morphir_core::migration::diagnostic::{
    MigrationDiagnostic, MigrationOptions, MigrationReport, Severity, V4Encoding,
};

fn classic(words: &[&str]) -> ClassicName {
    ClassicName { words: words.iter().map(|w| w.to_string()).collect() }
}

#[test]
fn a_run_of_single_letters_collapses_into_an_initialism() {
    let name = migrate_name(&classic(&["value", "in", "u", "s", "d"]), "/n").unwrap();
    assert_eq!(name.to_canonical_string(), "value-in-USD");
}

#[test]
fn a_single_letter_stays_a_word() {
    let name = migrate_name(&classic(&["a"]), "/n").unwrap();
    assert_eq!(name.to_canonical_string(), "a");
    let mixed = migrate_name(&classic(&["Order", "ID"]), "/n").unwrap();
    assert_eq!(mixed.to_canonical_string(), "order-id");
}

#[test]
fn a_name_with_no_words_is_refused_with_help() {
    let d = migrate_name(&classic(&[]), "/types/x").unwrap_err();
    assert_eq!(d.severity, Severity::Error);
    assert_eq!(d.code, EMPTY_NAME);
    assert_eq!(d.path, "/types/x");
    assert_eq!(d.message, "a Classic name with no words has no v4 spelling");
    assert_eq!(
        d.help.as_deref(),
        Some("give the name at least one non-empty word in the Classic document")
    );
    assert!(!d.recoverable);
    assert!(migrate_name(&classic(&["", ""]), "/types/x").is_err());
}

#[test]
fn a_path_migrates_name_by_name() {
    let path = ClassicPath { segments: vec![classic(&["morphir"]), classic(&["s", "d", "k"])] };
    let migrated = migrate_path(&path, "/p").unwrap();
    assert_eq!(migrated.to_canonical_string(), "morphir/SDK");
    let broken = ClassicPath { segments: vec![classic(&["morphir"]), classic(&[])] };
    assert_eq!(migrate_path(&broken, "/p").unwrap_err().code, EMPTY_NAME);
}

#[test]
fn a_fully_qualified_name_migrates_each_part() {
    let fq = ClassicFQName {
        package_path: ClassicPath { segments: vec![classic(&["acme"])] },
        module: ClassicPath { segments: vec![classic(&["orders"])] },
        local_name: classic(&["submit", "order"]),
    };
    let migrated = migrate_fqname(&fq, "/v").unwrap();
    assert_eq!(migrated.to_canonical_string(), "acme:orders#submit-order");
    let no_local = ClassicFQName { local_name: classic(&[]), ..fq };
    assert_eq!(migrate_fqname(&no_local, "/v").unwrap_err().path, "/v");
}

#[test]
fn diagnostic_constructors_set_severity_and_recoverability() {
    let e = MigrationDiagnostic::error("c", "/a", "m".to_string());
    assert_eq!((e.severity, e.recoverable), (Severity::Error, false));
    let r = MigrationDiagnostic::recoverable("c", "/a", "m".to_string());
    assert_eq!((r.severity, r.recoverable), (Severity::Error, true));
    let w = MigrationDiagnostic::warning("c", "/a", "m".to_string()).with_help("h".to_string());
    assert_eq!((w.severity, w.recoverable), (Severity::Warning, true));
    assert_eq!(w.help.as_deref(), Some("h"));
}

#[test]
fn the_default_options_refuse_a_partial_result() {
    let options = MigrationOptions::default();
    assert!(!options.allow_partial);
    assert_eq!(options.encoding, V4Encoding::Compact);
}

#[test]
fn an_empty_report_can_be_published() {
    let report = MigrationReport::new(MigrationOptions::default());
    assert!(report.can_publish());
    assert!(report.diagnostics().is_empty());
}

#[test]
fn warnings_never_block_publishing() {
    let mut report = MigrationReport::new(MigrationOptions::default());
    report.push(MigrationDiagnostic::warning("w", "/a", "m".to_string()));
    assert!(report.can_publish());
    assert_eq!(report.diagnostics().len(), 1);
}

#[test]
fn an_error_blocks_unless_partial_results_are_allowed_and_it_is_recoverable() {
    let mut strict = MigrationReport::new(MigrationOptions::default());
    strict.push(MigrationDiagnostic::recoverable("r", "/a", "m".to_string()));
    assert!(!strict.can_publish());

    let partial = MigrationOptions { allow_partial: true, encoding: V4Encoding::Expanded };
    let mut lenient = MigrationReport::new(partial);
    lenient.push(MigrationDiagnostic::recoverable("r", "/a", "m".to_string()));
    assert!(lenient.can_publish());
    lenient.push(MigrationDiagnostic::error("e", "/b", "m".to_string()));
    assert!(!lenient.can_publish());
}

#[test]
fn access_migrates_to_the_same_level() {
    assert_eq!(migrate_access(&ClassicAccess::Public), Access::Public);
    assert_eq!(migrate_access(&ClassicAccess::Private), Access::Private);
}

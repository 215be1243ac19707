use morphir_core::naming::fqname::FQName;
use morphir_core::naming::name::{Name, NameStyle};
use morphir_core::naming::package_name::PackageName;
use morphir_core::naming::path::Path;
use morphir_core::naming::stem::{escaped_path, file_stem, is_stem_of, truncate_stem};

#[test]
fn test_fqname_parsing() {
    let fq = FQName::parse("org/pkg:mod/sub:Func").unwrap();
    assert_eq!(fq.package_path.to_string(), "org/pkg");
    assert_eq!(fq.module.to_string(), "mod/sub");
    assert_eq!(fq.local_name.to_kebab_case(), "func");
}

#[test]
fn test_fqname_roundtrip() {
    let fq = FQName::parse("my/pkg:my/mod:myFunc").unwrap();
    let s = fq.to_string();
    assert_eq!(s, "my/pkg:my/mod#my-func");
}

#[test]
fn fqname_parse_refuses_a_string_without_two_colons() {
    assert!(FQName::parse("my/pkg:myFunc").is_none());
    assert!(FQName::parse("plain").is_none());
}

#[test]
fn fqname_canonical_string_reads_back_to_the_same_name() {
    let fq = FQName::parse("acme/orders:api/v1:submitOrder").unwrap();
    let text = fq.to_canonical_string();
    let back = FQName::from_canonical_string(&text).unwrap();
    assert!(back.same_as(&fq));
    assert_eq!(back.to_canonical_string(), text);
}

#[test]
fn fqname_from_canonical_string_refuses_a_missing_hash() {
    assert!(FQName::from_canonical_string("acme/orders:api").is_err());
}

#[test]
fn a_camel_case_name_splits_into_words_and_initialisms() {
    let name = Name::from("valueInUSD");
    assert_eq!(name.to_kebab_case(), "value-in-usd");
    assert_eq!(name.to_canonical_string(), "value-in-USD");
    assert_eq!(name.to_canonical_string_in(NameStyle::DoubledHyphen), "value-in--usd");
    assert_eq!(name.to_file_stem(), "value-in-_usd");
    assert_eq!(name.to_snake_case(), "value_in_usd");
    assert_eq!(name.to_screaming_snake_case(), "VALUE_IN_USD");
}

#[test]
fn a_name_reads_back_from_its_canonical_string() {
    let name = Name::from("valueInUSD");
    let back = Name::from_canonical_string(&name.to_canonical_string()).unwrap();
    assert!(back.same_as(&name));
    let doubled = Name::from_canonical_string("value-in--usd").unwrap();
    assert!(doubled.same_as(&name));
}

#[test]
fn a_canonical_string_that_mixes_both_encodings_is_refused() {
    assert!(Name::from_canonical_string("a--b-USD").is_err());
}

#[test]
fn the_empty_string_is_the_empty_name() {
    let name = Name::from("");
    assert!(name.is_empty());
    assert_eq!(name.to_canonical_string(), "");
}

#[test]
fn a_reserved_device_stem_carries_a_trailing_underscore() {
    assert_eq!(Name::from("con").to_file_stem(), "con_");
    assert_eq!(file_stem(&Name::from("aux")), "aux_");
    assert_eq!(file_stem(&Name::from("user")), "user");
}

#[test]
fn a_name_reads_back_from_its_file_stem() {
    let name = Name::from("valueInUSD");
    let back = Name::from_file_stem(&name.to_file_stem()).unwrap();
    assert!(back.same_as(&name));
    let reserved = Name::from_file_stem("con_").unwrap();
    assert!(reserved.same_as(&Name::from("con")));
}

#[test]
fn a_path_joins_its_names_with_slashes() {
    let path = Path::new("acme/orderBook");
    assert_eq!(path.to_string(), "acme/order-book");
    assert_eq!(escaped_path(&path), "acme/order-book");
    let back = Path::from_canonical_string("acme/order-book").unwrap();
    assert!(back.same_as(&path));
}

#[test]
fn a_package_name_is_its_path() {
    let package = PackageName::from_canonical_string("acme/orders").unwrap();
    assert_eq!(package.to_canonical_string(), "acme/orders");
    assert!(!package.is_empty());
    assert!(package.path().same_as(&Path::new("acme/orders")));
}

#[test]
fn truncation_keeps_a_prefix_and_appends_the_content_hash() {
    let escaped = "customer-relationship-manager";
    assert_eq!(truncate_stem(escaped, 20).unwrap(), "customer-r__e603649b");
    // A cut that exposes a separator trims it before the hash.
    assert_eq!(truncate_stem(escaped, 19).unwrap(), "customer__e603649b");
    assert_eq!(truncate_stem(escaped, 11).unwrap(), "c__e603649b");
}

#[test]
fn truncation_below_the_minimum_budget_is_refused() {
    assert!(truncate_stem("customer-relationship-manager", 10).is_none());
    assert!(truncate_stem("customer-relationship-manager", 0).is_none());
}

#[test]
fn a_truncated_stem_is_a_stem_of_its_escaped_name() {
    let escaped = "customer-relationship-manager";
    let cut = truncate_stem(escaped, 20).unwrap();
    assert!(is_stem_of(&cut, escaped));
    assert!(is_stem_of(escaped, escaped));
    assert!(!is_stem_of("customer-r__00000000", escaped));
    assert!(!is_stem_of("other", escaped));
}

#[test]
fn a_name_renders_in_each_case_convention() {
    let name = Name::from("valueInUSD");
    assert_eq!(name.to_camel_case(), "valueInUSD");
    assert_eq!(name.to_pascal_case(), "ValueInUSD");
    assert_eq!(name.to_title_case(), "ValueInUSD");
    assert_eq!(name.to_pascal_case_pascal_initialism(), "ValueInUsd");
    assert!(name.is_lowercase());
    let leading = Name::from_canonical_string("IO-error").unwrap();
    assert_eq!(leading.to_camel_case(), "ioError");
}

#[test]
fn a_name_built_from_ascii_words_reads_back_to_itself() {
    let words: Vec<String> = ["Value", "In", "U", "S", "D"].iter().map(|w| w.to_string()).collect();
    let name = Name::from_words(words);
    assert_eq!(name.words(), vec!["value", "in", "u", "s", "d"]);
    let again = Name::from_words(name.words());
    assert_eq!(again, name);
    assert!(name.is_lowercase());
    assert_eq!(name.to_canonical_string(), "value-in-USD");
}

#[test]
fn a_name_from_legacy_words_is_lowercase() {
    let name = Name::new(&["HTTP", "Status", "x"]);
    assert!(name.is_lowercase());
    assert_eq!(Name::new(&["http", "status", "x"]), name);
}

use tfmod::codec::{config_is_plain, encode_state, parse_state};
use tfmod::config::Config;

#[test]
fn encoding_is_exact() {
    let c = Config::from_selections(
        b"prod".to_vec(),
        b"us-east-1".to_vec(),
        b"vpc".to_vec(),
        b"/abs/infra".to_vec(),
    );
    let bytes = encode_state(&c);
    let expected = b"environment = \"prod\"\nregion = \"us-east-1\"\nmodule = \"vpc\"\ninfra_dir = \"/abs/infra\"\n";
    assert_eq!(bytes, expected.to_vec());
}

#[test]
fn encoding_skips_missing_environment() {
    let c = Config::first_run(b"vpc".to_vec());
    let bytes = encode_state(&c);
    let expected = b"region = \"us-east-1\"\nmodule = \"vpc\"\ninfra_dir = \"../../\"\n";
    assert_eq!(bytes, expected.to_vec());
}

#[test]
fn first_run_state_reads_back_unchanged() {
    // A fresh record is created, persisted, loaded, and loaded again:
    // every load sees the same record.
    let created = Config::first_run(b"myrepo".to_vec());
    assert!(config_is_plain(&created));
    let stored = encode_state(&created);

    let first_load = parse_state(&stored).unwrap();
    assert_eq!(first_load.environment, created.environment);
    assert_eq!(first_load.region, created.region);
    assert_eq!(first_load.module, created.module);
    assert_eq!(first_load.infra_dir, created.infra_dir);

    let second_load = parse_state(&encode_state(&first_load)).unwrap();
    assert_eq!(second_load.environment, first_load.environment);
    assert_eq!(second_load.region, first_load.region);
    assert_eq!(second_load.module, first_load.module);
    assert_eq!(second_load.infra_dir, first_load.infra_dir);
}

#[test]
fn full_record_round_trip() {
    let c = Config::from_selections(
        b"stage".to_vec(),
        b"eu-central-1".to_vec(),
        b"db".to_vec(),
        b"/home/user/infra".to_vec(),
    );
    let back = parse_state(&encode_state(&c)).unwrap();
    assert_eq!(back.environment, Some(b"stage".to_vec()));
    assert_eq!(back.region, b"eu-central-1".to_vec());
    assert_eq!(back.module, b"db".to_vec());
    assert_eq!(back.infra_dir, b"/home/user/infra".to_vec());
}

#[test]
fn malformed_state_is_rejected() {
    assert!(parse_state(&b"".to_vec()).is_none());
    assert!(parse_state(&b"region = \"us-east-1\"\n".to_vec()).is_none());
    assert!(parse_state(&b"region = us-east-1\nmodule = \"m\"\ninfra_dir = \"i\"\n".to_vec()).is_none());
    // A well-formed file with trailing garbage is rejected too.
    assert!(parse_state(
        &b"region = \"r\"\nmodule = \"m\"\ninfra_dir = \"i\"\nextra = \"x\"\n".to_vec()
    )
    .is_none());
    // The lines come in a fixed order.
    assert!(parse_state(
        &b"module = \"m\"\nregion = \"r\"\ninfra_dir = \"i\"\n".to_vec()
    )
    .is_none());
}

#[test]
fn values_that_need_escaping_are_not_plain() {
    let mut c = Config::first_run(b"vpc".to_vec());
    assert!(config_is_plain(&c));
    c.module = b"a\"b".to_vec();
    assert!(!config_is_plain(&c));
    c.module = b"a\\b".to_vec();
    assert!(!config_is_plain(&c));
    c.module = b"a\nb".to_vec();
    assert!(!config_is_plain(&c));
    c.module = b"plain".to_vec();
    assert!(config_is_plain(&c));
}

#[test]
fn state_file_is_readable_toml() {
    // The format stays compatible with a generic toml reader.
    let c = Config::from_selections(
        b"prod".to_vec(),
        b"us-east-1".to_vec(),
        b"vpc".to_vec(),
        b"/abs/infra".to_vec(),
    );
    let text = String::from_utf8(encode_state(&c)).unwrap();
    let table: toml::Table = toml::from_str(&text).unwrap();
    assert_eq!(
        table.get("environment").and_then(|v| v.as_str()),
        Some("prod")
    );
    assert_eq!(table.get("region").and_then(|v| v.as_str()), Some("us-east-1"));
    assert_eq!(table.get("module").and_then(|v| v.as_str()), Some("vpc"));
    assert_eq!(
        table.get("infra_dir").and_then(|v| v.as_str()),
        Some("/abs/infra")
    );
}

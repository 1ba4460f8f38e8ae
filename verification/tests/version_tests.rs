use error_message_format::version::ApiGeneration;
use error_message_format::version::UnsupportedVersion;
use error_message_format::version::resolve;
use error_message_format::version::resolve_build;
use error_message_format::version::API_ID_PHP80;
use error_message_format::version::API_ID_PHP84;

#[test]
fn resolve_interval_starts() {
    assert_eq!(resolve(2020_09_30), Ok(ApiGeneration::Php80));
    assert_eq!(resolve(2021_09_02), Ok(ApiGeneration::Php81));
    assert_eq!(resolve(2022_08_29), Ok(ApiGeneration::Php82));
    assert_eq!(resolve(2023_08_31), Ok(ApiGeneration::Php83));
    assert_eq!(resolve(2024_09_24), Ok(ApiGeneration::Php84));
}

#[test]
fn resolve_interval_interiors() {
    assert_eq!(resolve(2021_09_01), Ok(ApiGeneration::Php80));
    assert_eq!(resolve(2022_08_28), Ok(ApiGeneration::Php81));
    assert_eq!(resolve(2023_08_30), Ok(ApiGeneration::Php82));
    assert_eq!(resolve(2024_09_23), Ok(ApiGeneration::Php83));
}

#[test]
fn resolve_below_minimum() {
    let expected = UnsupportedVersion {
        version: 2020_09_29,
        min_supported: API_ID_PHP80,
        max_supported: API_ID_PHP84,
    };
    assert_eq!(resolve(2020_09_29), Err(expected));
    assert!(resolve(0).is_err());
}

#[test]
fn resolve_above_maximum() {
    let expected = UnsupportedVersion {
        version: 2024_09_25,
        min_supported: API_ID_PHP80,
        max_supported: API_ID_PHP84,
    };
    assert_eq!(resolve(2024_09_25), Err(expected));
    assert!(resolve(u32::MAX).is_err());
}

#[test]
fn generation_ids_and_bounds() {
    assert_eq!(ApiGeneration::min(), ApiGeneration::Php80);
    assert_eq!(ApiGeneration::max(), ApiGeneration::Php84);
    assert_eq!(ApiGeneration::min().id(), 2020_09_30);
    assert_eq!(ApiGeneration::max().id(), 2024_09_24);
}

#[test]
fn versions_in_release_order() {
    let all = ApiGeneration::versions();
    assert_eq!(
        all,
        vec![
            ApiGeneration::Php80,
            ApiGeneration::Php81,
            ApiGeneration::Php82,
            ApiGeneration::Php83,
            ApiGeneration::Php84,
        ]
    );
}

#[test]
fn supported_apis_are_the_prefix() {
    assert_eq!(ApiGeneration::Php80.supported_apis(), vec![ApiGeneration::Php80]);
    assert_eq!(
        ApiGeneration::Php82.supported_apis(),
        vec![ApiGeneration::Php80, ApiGeneration::Php81, ApiGeneration::Php82]
    );
    assert_eq!(ApiGeneration::Php84.supported_apis(), ApiGeneration::versions());
}

#[test]
fn cfg_names() {
    assert_eq!(ApiGeneration::Php80.cfg_name(), "php80");
    assert_eq!(ApiGeneration::Php81.cfg_name(), "php81");
    assert_eq!(ApiGeneration::Php82.cfg_name(), "php82");
    assert_eq!(ApiGeneration::Php83.cfg_name(), "php83");
    assert_eq!(ApiGeneration::Php84.cfg_name(), "php84");
}

#[test]
fn only_the_oldest_is_deprecated() {
    assert!(ApiGeneration::Php80.is_deprecated());
    assert!(!ApiGeneration::Php81.is_deprecated());
    assert!(!ApiGeneration::Php84.is_deprecated());
}

#[test]
fn resolve_build_selects_flags_and_deprecation() {
    let res = resolve_build(2022_09_01).unwrap();
    assert_eq!(res.generation, ApiGeneration::Php82);
    assert_eq!(
        res.flags,
        vec![ApiGeneration::Php80, ApiGeneration::Php81, ApiGeneration::Php82]
    );
    assert!(!res.deprecated);

    let oldest = resolve_build(2020_09_30).unwrap();
    assert_eq!(oldest.generation, ApiGeneration::Php80);
    assert!(oldest.deprecated);
}

#[test]
fn resolve_build_rejects_out_of_range() {
    let err = resolve_build(1999_01_01).unwrap_err();
    assert_eq!(err.version, 1999_01_01);
    assert_eq!(err.min_supported, 2020_09_30);
    assert_eq!(err.max_supported, 2024_09_24);
}

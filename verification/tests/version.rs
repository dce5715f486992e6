use unity_typetree_gen::version::leading_number;
use unity_typetree_gen::UnityVersion;

fn v(major: u32, minor: u32, patch: u32) -> UnityVersion {
    UnityVersion { major, minor, patch }
}

#[test]
fn parse_full_versions() {
    assert_eq!(UnityVersion::parse("6000.0.0f1"), v(6000, 0, 0));
    assert_eq!(UnityVersion::parse("2022.3.0f1"), v(2022, 3, 0));
    assert_eq!(UnityVersion::parse("2019.4.0f1"), v(2019, 4, 0));
    assert_eq!(UnityVersion::parse("5.0.0f1"), v(5, 0, 0));
    assert_eq!(UnityVersion::parse("2021.3.45"), v(2021, 3, 45));
}

#[test]
fn parse_missing_components_are_zero() {
    assert_eq!(UnityVersion::parse("2019"), v(2019, 0, 0));
    assert_eq!(UnityVersion::parse("2019.4"), v(2019, 4, 0));
    assert_eq!(UnityVersion::parse(""), v(0, 0, 0));
    assert_eq!(UnityVersion::parse("..7"), v(0, 0, 7));
}

#[test]
fn parse_takes_leading_digits_only() {
    assert_eq!(UnityVersion::parse("abc.5b.x9"), v(0, 5, 0));
    assert_eq!(UnityVersion::parse("2020.1.4p2.9"), v(2020, 1, 4));
    assert_eq!(UnityVersion::parse("99999999999.1.2"), v(0, 1, 2));
    assert_eq!(UnityVersion::parse("4294967295.4294967296.1"), v(4294967295, 0, 1));
}

#[test]
fn leading_number_cases() {
    assert_eq!(leading_number("123abc"), 123);
    assert_eq!(leading_number("abc"), 0);
    assert_eq!(leading_number(""), 0);
    assert_eq!(leading_number("0042"), 42);
    assert_eq!(leading_number("4294967295"), 4294967295);
    assert_eq!(leading_number("4294967296"), 0);
    assert_eq!(leading_number("١٢"), 0);
}

#[test]
fn serialization_limit_by_version() {
    assert_eq!(v(6000, 0, 0).serialization_limit(), 10);
    assert_eq!(v(2021, 1, 0).serialization_limit(), 10);
    assert_eq!(v(2020, 1, 4).serialization_limit(), 10);
    assert_eq!(v(2020, 1, 3).serialization_limit(), 7);
    assert_eq!(v(2020, 2, 0).serialization_limit(), 10);
    assert_eq!(v(2020, 0, 9).serialization_limit(), 7);
    assert_eq!(v(2019, 4, 9).serialization_limit(), 10);
    assert_eq!(v(2019, 4, 8).serialization_limit(), 7);
    assert_eq!(v(2019, 3, 20).serialization_limit(), 7);
    assert_eq!(v(5, 0, 0).serialization_limit(), 7);
}

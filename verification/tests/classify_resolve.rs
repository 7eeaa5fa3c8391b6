use tinyhttp::content_type::classify_content_type;
use tinyhttp::resolve::resolve_path;
use tinyhttp::numbers::{to_decimal, parse_decimal};
use tinyhttp::config::parse_config;

#[test]
fn classifies_every_known_extension() {
    assert_eq!(classify_content_type(b"a.html"), b"text/html".to_vec());
    assert_eq!(classify_content_type(b"a.htm"), b"text/html".to_vec());
    assert_eq!(classify_content_type(b"a.css"), b"text/css".to_vec());
    assert_eq!(classify_content_type(b"a.js"), b"text/javascript".to_vec());
    assert_eq!(classify_content_type(b"a.png"), b"image/png".to_vec());
    assert_eq!(classify_content_type(b"a.jpg"), b"image/jpeg".to_vec());
    assert_eq!(classify_content_type(b"a.jpeg"), b"image/jpeg".to_vec());
    assert_eq!(classify_content_type(b"a.ico"), b"image/x-icon".to_vec());
}

#[test]
fn defaults_to_html_for_other_or_absent_extensions() {
    assert_eq!(classify_content_type(b"a.txt"), b"text/html".to_vec());
    assert_eq!(classify_content_type(b"noext"), b"text/html".to_vec());
    assert_eq!(classify_content_type(b"dir/"), b"text/html".to_vec());
    assert_eq!(classify_content_type(b""), b"text/html".to_vec());
}

#[test]
fn extension_matching_is_case_sensitive() {
    assert_eq!(classify_content_type(b"a.CSS"), b"text/html".to_vec());
    assert_eq!(classify_content_type(b"a.Png"), b"text/html".to_vec());
}

#[test]
fn uses_only_the_last_component_and_last_dot() {
    assert_eq!(classify_content_type(b"x.css/y.png"), b"image/png".to_vec());
    assert_eq!(classify_content_type(b"a.min.js"), b"text/javascript".to_vec());
    assert_eq!(classify_content_type(b"dir.css/file"), b"text/html".to_vec());
}

#[test]
fn a_leading_dot_alone_is_no_extension() {
    assert_eq!(classify_content_type(b"www/.css"), b"text/html".to_vec());
}

#[test]
fn root_target_resolves_to_index_html() {
    assert_eq!(resolve_path(b"webroot", b"/"), b"webroot/index.html".to_vec());
}

#[test]
fn other_targets_join_beneath_the_root() {
    assert_eq!(resolve_path(b"webroot", b"/a.css"), b"webroot/a.css".to_vec());
    assert_eq!(resolve_path(b"/srv/www", b"/img/x.png"), b"/srv/www/img/x.png".to_vec());
}

#[test]
fn a_target_without_leading_slash_still_joins() {
    assert_eq!(resolve_path(b"webroot", b"abc"), b"webroot/abc".to_vec());
}

#[test]
fn renders_decimals_exactly() {
    assert_eq!(to_decimal(0), b"0".to_vec());
    assert_eq!(to_decimal(7), b"7".to_vec());
    assert_eq!(to_decimal(65535), b"65535".to_vec());
    assert_eq!(to_decimal(1000), b"1000".to_vec());
}

#[test]
fn reads_decimals_back() {
    assert_eq!(parse_decimal(b"0"), Some(0));
    assert_eq!(parse_decimal(b"007"), Some(7));
    assert_eq!(parse_decimal(b"65535"), Some(65535));
    assert_eq!(parse_decimal(b""), None);
    assert_eq!(parse_decimal(b"12a"), None);
    assert_eq!(parse_decimal(b"-3"), None);
    assert_eq!(parse_decimal(b" 3"), None);
}

#[test]
fn reads_config_pairs() {
    let map = parse_config(b"server_directory = /srv/www\nport=8000");
    assert_eq!(map.get(b"server_directory").unwrap(), &b"/srv/www".to_vec());
    assert_eq!(map.get(b"port").unwrap(), &b"8000".to_vec());
    assert!(map.get(b"missing").is_none());
}

#[test]
fn keeps_equals_signs_inside_values() {
    let map = parse_config(b"key = a=b=c");
    assert_eq!(map.get(b"key").unwrap(), &b"a=b=c".to_vec());
}

#[test]
fn later_duplicate_config_key_wins() {
    let map = parse_config(b"k = one\nk = two");
    assert_eq!(map.get(b"k").unwrap(), &b"two".to_vec());
}

#[test]
fn a_config_line_without_equals_is_a_bare_key() {
    let map = parse_config(b"  bare \nk=v");
    assert_eq!(map.get(b"bare").unwrap(), &b"".to_vec());
}

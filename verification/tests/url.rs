use mttp::http::HeaderMap;
use mttp::url::parse_query_params_and_urldecode;

fn hm(pairs: &[(&str, &str)]) -> HeaderMap {
    HeaderMap::from_pairs(
        pairs.iter().map(|(k, v)| (k.to_string(), v.to_string())).collect(),
    )
}

#[test]
fn test_parse_query1() {
    let s = "https://example.com/over/there?name=ferret";
    let got = parse_query_params_and_urldecode(s);

    assert_eq!(got.0, "https://example.com/over/there");
    assert_eq!(got.1, hm(&[("name", "ferret")]));
}

#[test]
fn test_parse_query2() {
    let s = "https://example.com/path/to/page?name=ferret&color=purple";
    let got = parse_query_params_and_urldecode(s);

    assert_eq!(got.0, "https://example.com/path/to/page");
    assert_eq!(got.1, hm(&[("name", "ferret"), ("color", "purple")]));
}

#[test]
fn test_parse_query3() {
    let s = "https://example.com/path?field1=value1&field1=value2&field2=value3";
    let got = parse_query_params_and_urldecode(s);

    assert_eq!(got.0, "https://example.com/path");
    assert_eq!(got.1, hm(&[("field1", "value2"), ("field2", "value3")]));
}

#[test]
fn test_parse_query4() {
    let s = "https://www.google.com/search?q=%C3%BC%C3%B6%C3%A4%2F%2F&client=firefox";
    let got = parse_query_params_and_urldecode(s);

    assert_eq!(got.0, "https://www.google.com/search");
    assert_eq!(got.1, hm(&[("q", "üöä//"), ("client", "firefox")]));
}

#[test]
fn test_basic_url_with_params() {
    let url = "http://example.com/page?name=John&age=30";
    let (base, params) = parse_query_params_and_urldecode(url);

    assert_eq!(base, "http://example.com/page");
    assert_eq!(params, hm(&[("name", "John"), ("age", "30")]));
}

#[test]
fn test_url_without_params() {
    let url = "http://example.com/page";
    let (base, params) = parse_query_params_and_urldecode(url);

    assert_eq!(base, "http://example.com/page");
    assert!(params.is_empty());
}

#[test]
fn test_url_with_encoded_params() {
    let url = "http://example.com/page?name=John%20Doe&city=New%20York";
    let (base, params) = parse_query_params_and_urldecode(url);

    assert_eq!(base, "http://example.com/page");
    assert_eq!(params, hm(&[("name", "John Doe"), ("city", "New York")]));
}

#[test]
fn test_url_with_empty_params() {
    let url = "http://example.com/page?";
    let (base, params) = parse_query_params_and_urldecode(url);

    assert_eq!(base, "http://example.com/page");
    assert!(params.is_empty());
}

#[test]
fn test_url_with_special_characters() {
    let url = "http://example.com/page?query=space%20&query2=%40";
    let (base, params) = parse_query_params_and_urldecode(url);

    assert_eq!(base, "http://example.com/page");
    assert_eq!(params, hm(&[("query", "space "), ("query2", "@")]));
}

#[test]
fn test_url_with_multiple_query_params() {
    let url = "http://example.com/?foo=1&bar=2&baz=3";
    let (base, params) = parse_query_params_and_urldecode(url);

    assert_eq!(base, "http://example.com/");
    assert_eq!(params, hm(&[("foo", "1"), ("bar", "2"), ("baz", "3")]));
}

fn generate_large_query_params(num_params: usize) -> String {
    let base = "http://example.com/page?";
    let mut params = Vec::new();
    for i in 0..num_params {
        params.push(format!("key{}=value{}", i, i));
    }
    format!("{}{}", base, params.join("&"))
}

#[test]
fn test_large_input() {
    let large_url = generate_large_query_params(10_000);
    let (base, params) = parse_query_params_and_urldecode(&large_url);

    assert_eq!(base, "http://example.com/page");
    assert_eq!(params.len(), 10_000);

    assert_eq!(params.get("key9999"), Some(&"value9999".to_string()));
    assert_eq!(params.get("key8888"), Some(&"value8888".to_string()));
}

#[test]
fn test_url_with_repeated_params() {
    let url = "http://example.com/page?name=John&name=Jane";
    let (base, params) = parse_query_params_and_urldecode(url);

    // Last occurrence should be kept
    assert_eq!(base, "http://example.com/page");
    assert_eq!(params, hm(&[("name", "Jane")]));
}

#[test]
fn test_url_with_no_base() {
    let url = "?name=John";
    let (base, params) = parse_query_params_and_urldecode(url);

    assert_eq!(base, "");
    assert_eq!(params, hm(&[("name", "John")]));
}

#[test]
fn test_invalid_url() {
    let url = "invalid_url";
    let (base, params) = parse_query_params_and_urldecode(url);

    assert_eq!(base, "invalid_url");
    assert!(params.is_empty());
}

#[test]
fn test_malformed_escape_drops_pair_only() {
    let url = "/p?good=1&bad=%zz&also=2";
    let (base, params) = parse_query_params_and_urldecode(url);

    assert_eq!(base, "/p");
    assert_eq!(params, hm(&[("good", "1"), ("also", "2")]));
}

#[test]
fn test_pair_without_equals_gets_empty_value() {
    let url = "/p?flag&x=1";
    let (_, params) = parse_query_params_and_urldecode(url);

    assert_eq!(params, hm(&[("flag", ""), ("x", "1")]));
}

#[test]
fn test_empty_keys_are_dropped() {
    let url = "/p?=v&x=1";
    let (_, params) = parse_query_params_and_urldecode(url);

    assert_eq!(params, hm(&[("x", "1")]));
}

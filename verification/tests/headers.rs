use reqwest::header::{HeaderMap, HeaderName, HeaderValue};
use tus_upload::{chunk_headers, decimal_digits, default_headers, Client, Error, TUS_VERSION};

#[test]
fn default_headers_hold_version_length_and_type() {
    let h = default_headers(1024 * 1024 * 12 + 768);
    assert_eq!(h.len(), 3);
    assert_eq!(h.get("tus-resumable").unwrap(), TUS_VERSION);
    assert_eq!(h.get("tus-resumable").unwrap(), "1.0.0");
    assert_eq!(h.get("upload-length").unwrap(), "12583680");
    assert_eq!(h.get(reqwest::header::CONTENT_TYPE).unwrap(), "application/offset+octet-stream");
}

#[test]
fn default_headers_of_zero_and_of_the_largest_size() {
    assert_eq!(default_headers(0).get("upload-length").unwrap(), "0");
    assert_eq!(default_headers(u64::MAX).get("upload-length").unwrap(), "18446744073709551615");
}

#[test]
fn decimal_digits_are_ascii_without_leading_zeros() {
    assert_eq!(decimal_digits(0), b"0".to_vec());
    assert_eq!(decimal_digits(7), b"7".to_vec());
    assert_eq!(decimal_digits(10), b"10".to_vec());
    assert_eq!(decimal_digits(4194304), b"4194304".to_vec());
    assert_eq!(decimal_digits(u64::MAX), b"18446744073709551615".to_vec());
}

#[test]
fn chunk_headers_swap_length_for_offset() {
    let template = default_headers(100);
    let h = chunk_headers(&template, 42).unwrap();
    assert_eq!(h.len(), 3);
    assert_eq!(h.get("upload-offset").unwrap(), "42");
    assert!(h.get("upload-length").is_none());
    assert_eq!(h.get("tus-resumable").unwrap(), "1.0.0");
    assert_eq!(h.get("content-type").unwrap(), "application/offset+octet-stream");
    // The template is left as it was.
    assert_eq!(template.get("upload-length").unwrap(), "100");
    assert!(template.get("upload-offset").is_none());
}

#[test]
fn chunk_headers_replace_an_offset_in_the_template() {
    let mut template = HeaderMap::new();
    template.append("upload-offset", HeaderValue::from_static("1"));
    template.append("upload-offset", HeaderValue::from_static("2"));
    let h = chunk_headers(&template, usize::MAX).unwrap();
    let all: Vec<_> = h.get_all("upload-offset").iter().collect();
    assert_eq!(all.len(), 1);
    assert_eq!(all[0], &usize::MAX.to_string());
}

#[test]
fn chunk_headers_refuse_a_template_of_too_many_names() {
    let mut template = HeaderMap::new();
    for i in 0..4095 {
        let name = HeaderName::from_bytes(format!("x-field-{}", i).as_bytes()).unwrap();
        template.insert(name, HeaderValue::from_static("v"));
    }
    assert!(chunk_headers(&template, 5).is_ok());
    template.insert("x-one-more", HeaderValue::from_static("v"));
    assert_eq!(chunk_headers(&template, 5).unwrap_err(), Error::HeaderConstruction { offset: 5 });
}

#[test]
fn client_keeps_its_destination_and_template() {
    let client = Client::new("https://test-url.com/foo".parse().unwrap(), default_headers(9));
    assert_eq!(client.url().as_str(), "https://test-url.com/foo");
    assert_eq!(client.headers().get("upload-length").unwrap(), "9");
    assert_eq!(client.config().chunk_size(), 4 * 1024 * 1024);
    assert_eq!(client.config().queue_capacity(), 4);
    assert_eq!(client.chunk_headers(3).unwrap().get("upload-offset").unwrap(), "3");
}

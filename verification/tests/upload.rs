use reqwest::header::{HeaderMap, HeaderName, HeaderValue};
use tus_upload::{
    default_headers, Client, Config, Error, MemoryEndpoint, MemorySource, Transport, CHUNK_SIZE,
};

/// Create a dummy client for use in tests
fn test_client() -> Client {
    Client::new("https://test-url.com/foo".parse().unwrap(), HeaderMap::new())
}

fn small_client(chunk_size: usize, queue_capacity: usize, size: u64) -> Client {
    Client::with_config(
        "https://test-url.com/foo".parse().unwrap(),
        default_headers(size),
        Config::new(chunk_size, queue_capacity).unwrap(),
    )
}

/// Bytes that look random, the same on every run.
///
/// The length is intentionally not a very even size, to ensure that tests that verify chunking
/// at 1k boundaries do the right thing.
fn entropy() -> Vec<u8> {
    let mut bytes = vec![0; 1024 * 1024 * 12 + 768];
    let mut state: u64 = 0x2545f4914f6cdd1d;
    for b in bytes.iter_mut() {
        state ^= state << 13;
        state ^= state >> 7;
        state ^= state << 17;
        *b = (state >> 24) as u8;
    }
    bytes
}

fn counting(n: usize) -> Vec<u8> {
    (0..n).map(|i| (i % 251) as u8).collect()
}

fn offsets(endpoint: &MemoryEndpoint) -> Vec<String> {
    endpoint
        .received()
        .iter()
        .map(|h| h.get("upload-offset").unwrap().to_str().unwrap().to_string())
        .collect()
}

#[test]
fn test_chunking_works() {
    let bytes = entropy();
    let client = test_client();

    let mut endpoint = MemoryEndpoint::new(usize::MAX);
    client
        .upload_inner(MemorySource::new(bytes.clone()), &mut endpoint)
        .expect("Didn't upload_inner");

    assert_eq!(&endpoint.stored()[..], &bytes[..]);
}

#[test]
fn large_upload_goes_in_four_chunks() {
    let bytes = entropy();
    let size = bytes.len();
    assert_eq!(CHUNK_SIZE, 1024 * 1024 * 4);
    let client = Client::new(
        "https://test-url.com/foo".parse().unwrap(),
        default_headers(size as u64),
    );
    let mut endpoint = MemoryEndpoint::new(usize::MAX);
    let total = client.upload(MemorySource::new(bytes.clone()), &mut endpoint);
    assert_eq!(total, Ok(1024 * 1024 * 12 + 768));
    assert_eq!(endpoint.sizes(), &vec![4194304, 4194304, 4194304, 768]);
    assert_eq!(offsets(&endpoint), vec!["0", "4194304", "8388608", "12582912"]);
    assert_eq!(&endpoint.stored()[..], &bytes[..]);
}

#[test]
fn empty_source_sends_nothing() {
    let client = small_client(4, 2, 0);
    let mut endpoint = MemoryEndpoint::new(100);
    assert_eq!(client.upload(MemorySource::new(vec![]), &mut endpoint), Ok(0));
    assert!(endpoint.received().is_empty());
    assert!(endpoint.stored().is_empty());

    let client = small_client(4, 2, 0);
    assert_eq!(client.upload_inner(MemorySource::new(vec![]), &mut endpoint), Ok(0));
    assert!(endpoint.received().is_empty());
}

#[test]
fn rejection_on_second_chunk_stops_the_upload() {
    let data = counting(14);
    let client = small_client(4, 4, 14);
    // Room for the first chunk, not for the second.
    let mut endpoint = MemoryEndpoint::new(6);
    let r = client.upload(MemorySource::new(data.clone()), &mut endpoint);
    match r {
        Err(Error::ProtocolRejection { offset, chunk_len, status, .. }) => {
            assert_eq!(offset, 4);
            assert_eq!(chunk_len, 4);
            assert_eq!(status, 413);
        }
        other => panic!("{:?}", other),
    }
    assert_eq!(endpoint.sizes(), &vec![4, 4]);
    assert_eq!(offsets(&endpoint), vec!["0", "4"]);
    assert_eq!(&endpoint.stored()[..], &data[..4]);
}

#[test]
fn rejection_on_first_chunk_reports_offset_zero() {
    let client = small_client(4, 1, 14);
    let mut endpoint = MemoryEndpoint::new(3);
    let r = client.upload_inner(MemorySource::new(counting(14)), &mut endpoint);
    let e = r.unwrap_err();
    assert_eq!(e.offset(), 0);
    assert_eq!(e.chunk_len(), Some(4));
    assert_eq!(endpoint.sizes(), &vec![4]);
    assert!(endpoint.stored().is_empty());
}

#[test]
fn chunks_count_is_length_over_size_rounded_up() {
    for (len, size, count) in [(0, 3, 0), (1, 3, 1), (3, 3, 1), (4, 3, 2), (9, 3, 3), (10, 3, 4), (5, 1, 5), (5, 100, 1)] {
        let data = counting(len);
        let client = small_client(size, 2, len as u64);
        let mut endpoint = MemoryEndpoint::new(usize::MAX);
        assert_eq!(client.upload(MemorySource::new(data.clone()), &mut endpoint), Ok(len));
        assert_eq!(endpoint.sizes().len(), count);
        assert_eq!(endpoint.stored(), &data);
        for (i, n) in endpoint.sizes().iter().enumerate() {
            if i + 1 < count {
                assert_eq!(*n, size);
            } else {
                assert_eq!(*n, len - size * (count - 1));
            }
        }
    }
}

#[test]
fn offsets_are_the_running_totals() {
    let data = counting(10);
    let client = small_client(4, 2, 10);
    let mut endpoint = MemoryEndpoint::new(usize::MAX);
    let source = MemorySource::new(data.clone()).limited(3).unwrap();
    assert_eq!(client.upload(source, &mut endpoint), Ok(10));
    assert_eq!(endpoint.sizes(), &vec![3, 3, 3, 1]);
    assert_eq!(offsets(&endpoint), vec!["0", "3", "6", "9"]);
    assert_eq!(endpoint.stored(), &data);
}

#[test]
fn short_reads_are_not_merged() {
    let data = counting(7);
    let client = small_client(5, 3, 7);
    let mut endpoint = MemoryEndpoint::new(usize::MAX);
    let source = MemorySource::new(data.clone()).limited(2).unwrap();
    assert_eq!(client.upload_inner(source, &mut endpoint), Ok(7));
    assert_eq!(endpoint.sizes(), &vec![2, 2, 2, 1]);
    assert_eq!(endpoint.stored(), &data);
}

#[test]
fn read_failure_reports_the_confirmed_offset() {
    let data = counting(14);
    for queued in [false, true] {
        let client = small_client(4, 2, 14);
        let mut endpoint = MemoryEndpoint::new(usize::MAX);
        let source = MemorySource::new(data.clone()).broken(6);
        let r = if queued {
            client.upload(source, &mut endpoint)
        } else {
            client.upload_inner(source, &mut endpoint)
        };
        match r {
            Err(Error::ReadFailure { offset, .. }) => assert_eq!(offset, 6),
            other => panic!("{:?}", other),
        }
        assert_eq!(endpoint.sizes(), &vec![4, 2]);
        assert_eq!(&endpoint.stored()[..], &data[..6]);
    }
}

#[test]
fn read_failure_at_the_start_sends_nothing() {
    let client = small_client(4, 2, 3);
    let mut endpoint = MemoryEndpoint::new(usize::MAX);
    let r = client.upload(MemorySource::new(counting(3)).broken(0), &mut endpoint);
    let e = r.unwrap_err();
    assert_eq!(e.offset(), 0);
    assert_eq!(e.chunk_len(), None);
    assert!(endpoint.received().is_empty());
}

#[test]
fn oversized_template_is_a_header_failure() {
    let mut template = HeaderMap::new();
    for i in 0..4096 {
        let name = HeaderName::from_bytes(format!("x-field-{}", i).as_bytes()).unwrap();
        template.insert(name, HeaderValue::from_static("v"));
    }
    let client = Client::with_config(
        "https://test-url.com/foo".parse().unwrap(),
        template,
        Config::new(4, 2).unwrap(),
    );
    let mut endpoint = MemoryEndpoint::new(usize::MAX);
    let r = client.upload(MemorySource::new(counting(9)), &mut endpoint);
    assert_eq!(r, Err(Error::HeaderConstruction { offset: 0 }));
    assert!(endpoint.received().is_empty());
}

#[test]
fn chunk_headers_follow_the_template() {
    let mut template = default_headers(10);
    template.insert("authorization", HeaderValue::from_static("Bearer abc"));
    let client = Client::with_config(
        "https://test-url.com/foo".parse().unwrap(),
        template,
        Config::new(6, 2).unwrap(),
    );
    let mut endpoint = MemoryEndpoint::new(usize::MAX);
    assert_eq!(client.upload(MemorySource::new(counting(10)), &mut endpoint), Ok(10));
    assert_eq!(endpoint.received().len(), 2);
    for (h, offset) in endpoint.received().iter().zip(["0", "6"]) {
        assert_eq!(h.get("upload-offset").unwrap(), offset);
        assert!(h.get("upload-length").is_none());
        assert_eq!(h.get("tus-resumable").unwrap(), "1.0.0");
        assert_eq!(h.get("content-type").unwrap(), "application/offset+octet-stream");
        assert_eq!(h.get("authorization").unwrap(), "Bearer abc");
        assert_eq!(h.len(), 4);
    }
}

#[test]
fn earlier_exchanges_stay() {
    let data = counting(5);
    let mut endpoint = MemoryEndpoint::new(usize::MAX);
    let first = small_client(2, 2, 5);
    assert_eq!(first.upload(MemorySource::new(data.clone()), &mut endpoint), Ok(5));
    let second = small_client(4, 2, 5);
    assert_eq!(second.upload(MemorySource::new(data.clone()), &mut endpoint), Ok(5));
    assert_eq!(endpoint.sizes(), &vec![2, 2, 1, 4, 1]);
    assert_eq!(offsets(&endpoint), vec!["0", "2", "4", "0", "4"]);
}

#[test]
fn endpoint_send_answers_by_its_limit() {
    let mut endpoint = MemoryEndpoint::new(3);
    let url: url::Url = "https://test-url.com/foo".parse().unwrap();
    let r = endpoint.send(&url, vec![1, 2], HeaderMap::new()).unwrap();
    assert_eq!(r.status, 204);
    let r = endpoint.send(&url, vec![3, 4], HeaderMap::new()).unwrap();
    assert_eq!(r.status, 413);
    let r = endpoint.send(&url, vec![5], HeaderMap::new()).unwrap();
    assert_eq!(r.status, 204);
    assert_eq!(endpoint.stored(), &vec![1, 2, 5]);
}

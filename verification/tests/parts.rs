use tus_upload::{
    cut_chunk, Config, Error, MemorySource, Phase, Processor, Production, ReadFault, Reply,
    Source, Transfer, TransferQueue, TransportFault, NO_CONTENT, QUEUE_CAPACITY,
};

#[test]
fn cut_chunk_truncates_to_the_bytes_read() {
    assert_eq!(cut_chunk(vec![1, 2, 3, 4], 4), Some(vec![1, 2, 3, 4]));
    assert_eq!(cut_chunk(vec![1, 2, 3, 4], 3), Some(vec![1, 2, 3]));
    assert_eq!(cut_chunk(vec![1, 2, 3, 4], 1), Some(vec![1]));
    assert_eq!(cut_chunk(vec![1, 2, 3, 4], 0), None);
    assert_eq!(cut_chunk(vec![], 0), None);
    assert_eq!(cut_chunk(vec![], 2), None);
    assert_eq!(cut_chunk(vec![1, 2], 9), Some(vec![1, 2]));
}

#[test]
fn queue_is_first_in_first_out_and_bounded() {
    let mut q = TransferQueue::new(2);
    assert_eq!(q.capacity(), 2);
    assert!(q.is_empty());
    assert_eq!(q.push(vec![1]), Ok(()));
    assert_eq!(q.push(vec![2, 3]), Ok(()));
    assert!(q.is_full());
    assert_eq!(q.push(vec![4]), Err(vec![4]));
    assert_eq!(q.len(), 2);
    assert_eq!(q.pop(), Some((vec![1], 1)));
    assert!(!q.is_full());
    assert_eq!(q.push(vec![5]), Ok(()));
    assert_eq!(q.pop(), Some((vec![2, 3], 2)));
    assert_eq!(q.pop(), Some((vec![5], 1)));
    assert_eq!(q.pop(), None);
}

#[test]
fn queue_of_no_capacity_takes_nothing() {
    let mut q = TransferQueue::new(0);
    assert!(q.is_full());
    assert_eq!(q.push(vec![1]), Err(vec![1]));
    assert_eq!(q.pop(), None);
}

#[test]
fn producer_waits_when_the_queue_is_full() {
    let data: Vec<u8> = (0..10).collect();
    let mut p = Processor::new(MemorySource::new(data), 3);
    let mut q = TransferQueue::new(2);
    assert_eq!(p.process(&mut q), Ok(Production::Suspended));
    assert_eq!(q.len(), 2);
    assert!(!p.finished());
    // Nothing moves while nothing is taken.
    assert_eq!(p.process(&mut q), Ok(Production::Suspended));
    assert_eq!(q.len(), 2);
    assert_eq!(q.pop(), Some((vec![0, 1, 2], 3)));
    assert_eq!(p.process(&mut q), Ok(Production::Suspended));
    assert_eq!(q.pop(), Some((vec![3, 4, 5], 3)));
    assert_eq!(q.pop(), Some((vec![6, 7, 8], 3)));
    assert_eq!(p.process(&mut q), Ok(Production::Finished));
    assert!(p.finished());
    assert_eq!(q.pop(), Some((vec![9], 1)));
    assert_eq!(q.pop(), None);
    assert_eq!(p.process(&mut q), Ok(Production::Finished));
    assert!(q.is_empty());
}

#[test]
fn producer_of_an_empty_source_emits_nothing() {
    let mut p = Processor::new(MemorySource::new(vec![]), 3);
    let mut q = TransferQueue::new(2);
    assert_eq!(p.process(&mut q), Ok(Production::Finished));
    assert!(q.is_empty());
}

#[test]
fn producer_hands_on_a_read_failure() {
    let mut p = Processor::new(MemorySource::new(vec![1, 2, 3, 4, 5]).broken(2), 4);
    let mut q = TransferQueue::new(4);
    let r = p.process(&mut q);
    assert!(matches!(r, Err(ReadFault { .. })));
    assert_eq!(q.pop(), Some((vec![1, 2], 2)));
    assert_eq!(q.pop(), None);
    assert!(!p.finished());
}

#[test]
fn memory_source_reads_in_order() {
    let mut s = MemorySource::new(vec![1, 2, 3, 4, 5]);
    assert_eq!(s.left(), 5);
    let mut buf = vec![0; 2];
    assert_eq!(s.read(&mut buf), Ok(2));
    assert_eq!(buf, vec![1, 2]);
    assert_eq!(s.read(&mut buf), Ok(2));
    assert_eq!(buf, vec![3, 4]);
    assert_eq!(s.read(&mut buf), Ok(1));
    assert_eq!(buf, vec![5, 4]);
    assert_eq!(s.left(), 0);
    assert_eq!(s.read(&mut buf), Ok(0));
    let mut none = vec![];
    assert_eq!(s.read(&mut none), Ok(0));
}

#[test]
fn memory_source_limit_and_break() {
    assert!(MemorySource::new(vec![1]).limited(0).is_none());
    let mut s = MemorySource::new(vec![1, 2, 3, 4, 5]).limited(2).unwrap().broken(3);
    let mut buf = vec![0; 4];
    assert_eq!(s.read(&mut buf), Ok(2));
    assert_eq!(s.read(&mut buf), Ok(1));
    assert_eq!(&buf[..1], &[3]);
    assert!(s.read(&mut buf).is_err());
    assert!(s.read(&mut buf).is_err());
    assert_eq!(s.left(), 2);
}

#[test]
fn transfer_walks_through_its_phases() {
    let mut t = Transfer::new();
    assert_eq!(t.phase(), Phase::Idle);
    assert_eq!(t.offset(), 0);
    assert_eq!(t.dispatch(4), None);
    assert_eq!(t.finish(), None);
    assert!(t.begin());
    assert!(!t.begin());
    assert_eq!(t.phase(), Phase::Streaming);
    assert_eq!(t.dispatch(0), None);
    assert_eq!(t.dispatch(4), Some(0));
    assert_eq!(t.pending(), Some(4));
    let ok = || Ok(Reply { status: NO_CONTENT, body: String::new() });
    assert_eq!(t.settle(ok()), Some(Ok(4)));
    assert_eq!(t.pending(), None);
    assert_eq!(t.settle(ok()), None);
    assert_eq!(t.dispatch(3), Some(4));
    assert_eq!(t.settle(ok()), Some(Ok(7)));
    assert_eq!(t.finish(), Some(7));
    assert_eq!(t.phase(), Phase::Completed);
    assert_eq!(t.dispatch(1), None);
    assert_eq!(t.finish(), None);
    assert_eq!(t.fail_read("late".to_string()), None);
    assert_eq!(t.offset(), 7);
}

#[test]
fn transfer_sends_one_chunk_at_a_time() {
    let mut t = Transfer::new();
    t.begin();
    assert_eq!(t.dispatch(4), Some(0));
    assert_eq!(t.dispatch(4), None);
    assert_eq!(t.pending(), Some(4));
    assert_eq!(t.finish(), None);
    assert_eq!(t.fail_read("x".to_string()), None);
    assert_eq!(t.fail_headers(), None);
    assert_eq!(t.phase(), Phase::Streaming);
}

#[test]
fn transfer_fails_on_any_other_status() {
    for status in [200u16, 201, 202, 205, 400, 409, 500] {
        let mut t = Transfer::new();
        t.begin();
        assert_eq!(t.dispatch(5), Some(0));
        t.settle(Ok(Reply { status: 204, body: String::new() }));
        assert_eq!(t.dispatch(6), Some(5));
        let r = t.settle(Ok(Reply { status, body: "no".to_string() }));
        assert_eq!(
            r,
            Some(Err(Error::ProtocolRejection {
                offset: 5,
                chunk_len: 6,
                status,
                body: "no".to_string()
            }))
        );
        assert_eq!(t.phase(), Phase::Failed);
        assert_eq!(t.offset(), 5);
        assert_eq!(t.dispatch(1), None);
        assert_eq!(t.finish(), None);
    }
}

#[test]
fn transfer_fails_on_a_transport_fault() {
    let mut t = Transfer::new();
    t.begin();
    t.dispatch(9);
    let r = t.settle(Err(TransportFault { cause: "reset".to_string() }));
    let e = r.unwrap().unwrap_err();
    assert_eq!(e, Error::TransportFailure { offset: 0, chunk_len: 9, cause: "reset".to_string() });
    assert_eq!(e.offset(), 0);
    assert_eq!(e.chunk_len(), Some(9));
    assert_eq!(t.phase(), Phase::Failed);
}

#[test]
fn transfer_fails_on_read_and_header_failures() {
    let mut t = Transfer::new();
    t.begin();
    t.dispatch(2);
    t.settle(Ok(Reply { status: 204, body: String::new() }));
    let e = t.fail_read("gone".to_string()).unwrap();
    assert_eq!(e, Error::ReadFailure { offset: 2, cause: "gone".to_string() });
    assert_eq!(e.chunk_len(), None);
    assert_eq!(t.phase(), Phase::Failed);

    let mut t = Transfer::new();
    t.begin();
    let e = t.fail_headers().unwrap();
    assert_eq!(e, Error::HeaderConstruction { offset: 0 });
    assert_eq!(e.offset(), 0);
    assert_eq!(t.phase(), Phase::Failed);
}

#[test]
fn transfer_refuses_a_chunk_that_overflows_the_offset() {
    let mut t = Transfer::new();
    t.begin();
    assert_eq!(t.dispatch(usize::MAX), Some(0));
    t.settle(Ok(Reply { status: 204, body: String::new() }));
    assert_eq!(t.offset(), usize::MAX);
    assert_eq!(t.dispatch(1), None);
    assert_eq!(t.finish(), Some(usize::MAX));
}

#[test]
fn config_has_no_zero_size() {
    assert!(Config::new(0, 4).is_none());
    assert!(Config::new(4, 0).is_none());
    let c = Config::new(5, 6).unwrap();
    assert_eq!((c.chunk_size(), c.queue_capacity()), (5, 6));
    let s = Config::standard();
    assert_eq!((s.chunk_size(), s.queue_capacity()), (4194304, QUEUE_CAPACITY));
    assert_eq!(QUEUE_CAPACITY, 4);
}

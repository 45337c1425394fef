use iospeed::copier::Copier;
use iospeed::source::{AsciiGenerator, ContentSource, Generator, MemoryGenerator};

/// Runs a copy loop from `source` into memory, requesting a stop once
/// `cancel_after` chunks have been transferred.
fn run(source: &mut ContentSource, buffer_size: usize, repeat_count: u64, cancel_after: Option<u64>)
    -> (Copier, Vec<u8>, Vec<usize>) {
    let mut copier = Copier::new(buffer_size, repeat_count);
    let mut sink = Vec::new();
    let mut sizes = Vec::new();
    loop {
        let len = copier.request_len();
        if len == 0 {
            break;
        }
        let mut buf = vec![0u8; len];
        let read = source.fill(&mut buf);
        if read > 0 {
            sink.extend_from_slice(&buf[..read]);
            sizes.push(read);
        }
        let cancelled = cancel_after.map_or(false, |n| copier.chunks() + 1 >= n);
        copier.record(read, cancelled);
    }
    (copier, sink, sizes)
}

#[test]
fn bounded_run_transfers_exactly_count_times_buffer() {
    let mut source = ContentSource::Ascii(AsciiGenerator::new());
    let (copier, sink, sizes) = run(&mut source, 4, 3, None);
    assert_eq!(copier.total(), 12);
    assert_eq!(copier.chunks(), 3);
    assert_eq!(sizes, vec![4, 4, 4]);
    assert_eq!(sink, b" !\"#$%&'()*+".to_vec());
    assert!(copier.is_stopped());
    assert_eq!(copier.request_len(), 0);
}

#[test]
fn bounded_run_from_circular_random_source() {
    let mut source = ContentSource::new(Generator::Random, 7, 0).unwrap();
    let (copier, sink, _) = run(&mut source, 7, 5, None);
    assert_eq!(copier.total(), 35);
    assert_eq!(sink.len(), 35);
    assert_eq!(&sink[0..7], &sink[7..14]);
}

#[test]
fn unbounded_run_stops_at_end_of_data() {
    let mut source = ContentSource::Fixed(MemoryGenerator::new((0u8..10).collect(), false));
    let (copier, sink, sizes) = run(&mut source, 4, 0, None);
    assert_eq!(sizes, vec![4, 4, 2]);
    assert_eq!(copier.total(), 10);
    assert_eq!(copier.chunks(), 3);
    assert_eq!(sink, (0u8..10).collect::<Vec<u8>>());
}

#[test]
fn bounded_run_stops_early_at_end_of_data() {
    let mut source = ContentSource::Fixed(MemoryGenerator::new((0u8..10).collect(), false));
    let (copier, _, sizes) = run(&mut source, 4, 5, None);
    assert_eq!(sizes, vec![4, 4, 2]);
    assert_eq!(copier.total(), 10);
}

#[test]
fn short_reads_shrink_the_last_request() {
    let mut copier = Copier::new(4, 3);
    assert_eq!(copier.request_len(), 4);
    copier.record(4, false);
    copier.record(3, false);
    assert_eq!(copier.request_len(), 4);
    copier.record(4, false);
    assert_eq!(copier.total(), 11);
    assert_eq!(copier.request_len(), 1);
    copier.record(1, false);
    assert_eq!(copier.total(), 12);
    assert_eq!(copier.chunks(), 4);
    assert!(copier.is_stopped());
    assert_eq!(copier.request_len(), 0);
}

#[test]
fn cancellation_counts_whole_chunks() {
    let mut source = ContentSource::Ascii(AsciiGenerator::new());
    let (copier, sink, sizes) = run(&mut source, 5, 0, Some(2));
    assert_eq!(sizes, vec![5, 5]);
    assert_eq!(copier.total(), 10);
    assert_eq!(copier.chunks(), 2);
    assert_eq!(sink.len(), 10);
}

#[test]
fn cancellation_in_a_bounded_run() {
    let mut source = ContentSource::Ascii(AsciiGenerator::new());
    let (copier, _, _) = run(&mut source, 5, 10, Some(3));
    assert_eq!(copier.total(), 15);
    assert_eq!(copier.chunks(), 3);
}

#[test]
fn empty_read_ends_without_counting() {
    let mut copier = Copier::new(8, 0);
    copier.record(8, false);
    copier.record(0, false);
    assert!(copier.is_stopped());
    assert_eq!(copier.chunks(), 1);
    assert_eq!(copier.total(), 8);
}

use iospeed::source::{
    generate_size, random_content, AsciiGenerator, ContentSource, Generator, MemoryGenerator,
    NullGenerator,
};

fn expected_ascii(n: usize) -> Vec<u8> {
    (0..n).map(|i| 0x20 + (i % 95) as u8).collect()
}

#[test]
fn ascii_starts_at_space_and_wraps_after_tilde() {
    let mut g = AsciiGenerator::new();
    let mut buf = vec![0u8; 96];
    assert_eq!(g.fill(&mut buf), 96);
    assert_eq!(buf[0], 0x20);
    assert_eq!(buf[94], 0x7E);
    assert_eq!(buf[95], 0x20);
    assert_eq!(g.index, 1);
}

#[test]
fn ascii_output_ignores_chunk_boundaries() {
    let mut g = AsciiGenerator::new();
    let mut out = Vec::new();
    for size in [1usize, 7, 94, 0, 200, 3] {
        let mut buf = vec![0u8; size];
        assert_eq!(g.fill(&mut buf), size);
        out.extend_from_slice(&buf);
    }
    assert_eq!(out, expected_ascii(305));
}

#[test]
fn null_source_writes_zeros() {
    let mut g = NullGenerator::new();
    let mut buf = vec![7u8; 5];
    assert_eq!(g.fill(&mut buf), 5);
    assert_eq!(buf, vec![0u8; 5]);
}

#[test]
fn single_pass_short_read_then_nothing() {
    let mut g = MemoryGenerator::new(vec![1, 2, 3, 4, 5], false);
    let mut buf = vec![0u8; 3];
    assert_eq!(g.fill(&mut buf), 3);
    assert_eq!(buf, vec![1, 2, 3]);
    let mut buf = vec![9u8; 3];
    assert_eq!(g.fill(&mut buf), 2);
    assert_eq!(buf, vec![4, 5, 9]);
    let mut buf = vec![9u8; 3];
    assert_eq!(g.fill(&mut buf), 0);
    assert_eq!(buf, vec![9, 9, 9]);
    assert_eq!(g.fill(&mut buf), 0);
}

#[test]
fn circular_replay_in_one_request() {
    let data = vec![10u8, 20, 30, 40];
    let mut g = MemoryGenerator::new(data.clone(), true);
    let mut buf = vec![0u8; 2 * 4 + 3];
    assert_eq!(g.fill(&mut buf), 11);
    assert_eq!(buf, vec![10, 20, 30, 40, 10, 20, 30, 40, 10, 20, 30]);
    assert_eq!(g.index, 3);
}

#[test]
fn circular_replay_in_several_requests() {
    let data = vec![10u8, 20, 30, 40];
    let mut g = MemoryGenerator::new(data, true);
    let mut out = Vec::new();
    for size in [3usize, 5, 3] {
        let mut buf = vec![0u8; size];
        assert_eq!(g.fill(&mut buf), size);
        out.extend_from_slice(&buf);
    }
    assert_eq!(out, vec![10, 20, 30, 40, 10, 20, 30, 40, 10, 20, 30]);
}

#[test]
fn circular_over_nothing_is_exhausted() {
    let mut g = MemoryGenerator::new(Vec::new(), true);
    let mut buf = vec![5u8; 4];
    assert_eq!(g.fill(&mut buf), 0);
    assert_eq!(buf, vec![5u8; 4]);
}

#[test]
fn content_source_dispatches() {
    let mut s = ContentSource::new(Generator::Text, 4, 0).unwrap();
    let mut buf = vec![0u8; 4];
    assert_eq!(s.fill(&mut buf), 4);
    assert_eq!(buf, b" !\"#".to_vec());
    let mut s = ContentSource::new(Generator::Null, 4, 0).unwrap();
    let mut buf = vec![1u8; 4];
    assert_eq!(s.fill(&mut buf), 4);
    assert_eq!(buf, vec![0u8; 4]);
}

#[test]
fn random_unbounded_materializes_one_buffer_circularly() {
    match ContentSource::new(Generator::Random, 16, 0).unwrap() {
        ContentSource::Fixed(g) => {
            assert_eq!(g.data.len(), 16);
            assert!(g.circular);
            assert_eq!(g.index, 0);
        }
        _ => panic!("expected a memory source"),
    }
}

#[test]
fn random_text_bounded_materializes_everything_once() {
    match ContentSource::new(Generator::RandomText, 16, 3).unwrap() {
        ContentSource::Fixed(g) => {
            assert_eq!(g.data.len(), 48);
            assert!(!g.circular);
            assert!(g.data.iter().all(|&b| (0x20..=0x7E).contains(&b)));
        }
        _ => panic!("expected a memory source"),
    }
}

#[test]
fn random_content_has_requested_size_and_range() {
    let bytes = random_content(4096, true);
    assert_eq!(bytes.len(), 4096);
    assert!(bytes.iter().all(|&b| (0x20..=0x7E).contains(&b)));
    assert!(bytes.iter().any(|&b| b != bytes[0]));
    assert_eq!(random_content(0, false).len(), 0);
    let any = random_content(4096, false);
    assert_eq!(any.len(), 4096);
    assert!(any.iter().any(|&b| b > 0x7E));
}

#[test]
fn materialized_size() {
    assert_eq!(generate_size(4096, 0), Some(4096));
    assert_eq!(generate_size(4096, 3), Some(12288));
    assert_eq!(generate_size(usize::MAX, 2), None);
    assert!(ContentSource::new(Generator::Random, usize::MAX, 2).is_none());
}

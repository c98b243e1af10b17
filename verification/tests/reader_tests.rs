use msf::open_msf;
use msf::MemorySource;
use msf::Msf;
use msf::MsfError;
use msf::MsfReader;
use msf::SourceError;

fn big_magic() -> Vec<u8> {
    b"Microsoft C/C++ MSF 7.00\r\n\x1aDS\0\0\0".to_vec()
}

fn small_magic() -> Vec<u8> {
    b"Microsoft C/C++ program database 2.00\r\n\x1aJG\0\0".to_vec()
}

fn set_u32(file: &mut [u8], off: usize, v: u32) {
    file[off..off + 4].copy_from_slice(&v.to_le_bytes());
}

/// Lays out a Big MSF image: stream contents on consecutive pages from
/// page 1, then the directory, then the directory's page list.
fn build_big(streams: &[Option<Vec<u8>>], ps: usize) -> Vec<u8> {
    let mut next_page: u32 = 1;
    let mut stream_pages: Vec<Vec<u32>> = Vec::new();
    for s in streams {
        match s {
            Some(content) => {
                let n = (content.len() + ps - 1) / ps;
                let pages: Vec<u32> = (0..n as u32).map(|i| next_page + i).collect();
                next_page += n as u32;
                stream_pages.push(pages);
            }
            None => stream_pages.push(Vec::new()),
        }
    }
    let mut dir: Vec<u8> = Vec::new();
    dir.extend_from_slice(&(streams.len() as u32).to_le_bytes());
    for s in streams {
        let size: u32 = match s {
            Some(c) => c.len() as u32,
            None => 0xFFFF_FFFF,
        };
        dir.extend_from_slice(&size.to_le_bytes());
    }
    for pages in &stream_pages {
        for p in pages {
            dir.extend_from_slice(&p.to_le_bytes());
        }
    }
    let dir_page_count = (dir.len() + ps - 1) / ps;
    let dir_pages: Vec<u32> = (0..dir_page_count as u32).map(|i| next_page + i).collect();
    next_page += dir_page_count as u32;
    let dpl_bytes = dir_page_count * 4;
    let dpl_page_count = (dpl_bytes + ps - 1) / ps;
    let dpl_pages: Vec<u32> = (0..dpl_page_count as u32).map(|i| next_page + i).collect();
    next_page += dpl_page_count as u32;
    let pages_used = next_page - 1;

    let total = std::cmp::max(next_page as usize * ps, 4096);
    let mut file = vec![0u8; total];
    file[0..32].copy_from_slice(&big_magic());
    set_u32(&mut file, 32, ps as u32);
    set_u32(&mut file, 36, 0);
    set_u32(&mut file, 40, pages_used);
    set_u32(&mut file, 44, dir.len() as u32);
    set_u32(&mut file, 48, 0);
    let mut off = 52;
    for p in &dpl_pages {
        set_u32(&mut file, off, *p);
        off += 4;
    }
    for (s, pages) in streams.iter().zip(stream_pages.iter()) {
        if let Some(content) = s {
            for (i, page) in pages.iter().enumerate() {
                let chunk = &content[i * ps..std::cmp::min((i + 1) * ps, content.len())];
                let base = *page as usize * ps;
                file[base..base + chunk.len()].copy_from_slice(chunk);
            }
        }
    }
    for (i, page) in dir_pages.iter().enumerate() {
        let chunk = &dir[i * ps..std::cmp::min((i + 1) * ps, dir.len())];
        let base = *page as usize * ps;
        file[base..base + chunk.len()].copy_from_slice(chunk);
    }
    let mut dpl: Vec<u8> = Vec::new();
    for p in &dir_pages {
        dpl.extend_from_slice(&p.to_le_bytes());
    }
    for (i, page) in dpl_pages.iter().enumerate() {
        let chunk = &dpl[i * ps..std::cmp::min((i + 1) * ps, dpl.len())];
        let base = *page as usize * ps;
        file[base..base + chunk.len()].copy_from_slice(chunk);
    }
    file
}

/// Lays out a Small MSF image: stream contents on consecutive pages from
/// page 1, then the directory, whose 16-bit page list sits in the header.
fn build_small(streams: &[Option<Vec<u8>>], ps: usize) -> Vec<u8> {
    let mut next_page: u32 = 1;
    let mut stream_pages: Vec<Vec<u32>> = Vec::new();
    for s in streams {
        match s {
            Some(content) => {
                let n = (content.len() + ps - 1) / ps;
                let pages: Vec<u32> = (0..n as u32).map(|i| next_page + i).collect();
                next_page += n as u32;
                stream_pages.push(pages);
            }
            None => stream_pages.push(Vec::new()),
        }
    }
    let mut dir: Vec<u8> = Vec::new();
    dir.extend_from_slice(&(streams.len() as u16).to_le_bytes());
    dir.extend_from_slice(&0u16.to_le_bytes());
    for s in streams {
        let size: u32 = match s {
            Some(c) => c.len() as u32,
            None => 0xFFFF_FFFF,
        };
        dir.extend_from_slice(&size.to_le_bytes());
        dir.extend_from_slice(&0u32.to_le_bytes());
    }
    for pages in &stream_pages {
        for p in pages {
            dir.extend_from_slice(&(*p as u16).to_le_bytes());
        }
    }
    let dir_page_count = (dir.len() + ps - 1) / ps;
    let dir_pages: Vec<u32> = (0..dir_page_count as u32).map(|i| next_page + i).collect();
    next_page += dir_page_count as u32;
    let pages_used = next_page - 1;

    let total = std::cmp::max(next_page as usize * ps, 4096);
    let mut file = vec![0u8; total];
    file[0..44].copy_from_slice(&small_magic());
    set_u32(&mut file, 44, ps as u32);
    file[48..50].copy_from_slice(&0u16.to_le_bytes());
    file[50..52].copy_from_slice(&(pages_used as u16).to_le_bytes());
    set_u32(&mut file, 52, dir.len() as u32);
    set_u32(&mut file, 56, 0);
    let mut off = 60;
    for p in &dir_pages {
        file[off..off + 2].copy_from_slice(&(*p as u16).to_le_bytes());
        off += 2;
    }
    for (s, pages) in streams.iter().zip(stream_pages.iter()) {
        if let Some(content) = s {
            for (i, page) in pages.iter().enumerate() {
                let chunk = &content[i * ps..std::cmp::min((i + 1) * ps, content.len())];
                let base = *page as usize * ps;
                file[base..base + chunk.len()].copy_from_slice(chunk);
            }
        }
    }
    for (i, page) in dir_pages.iter().enumerate() {
        let chunk = &dir[i * ps..std::cmp::min((i + 1) * ps, dir.len())];
        let base = *page as usize * ps;
        file[base..base + chunk.len()].copy_from_slice(chunk);
    }
    file
}

#[test]
fn round_trip_big_streams() {
    let long: Vec<u8> = (0..5000u32).map(|i| (i % 251) as u8).collect();
    let streams = vec![
        Some(b"abc".to_vec()),
        None,
        Some(Vec::new()),
        Some(long.clone()),
    ];
    let file = build_big(&streams, 4096);
    let mut reader = open_msf(MemorySource::new(file)).expect("open");
    let s0 = reader.get(0, None).expect("stream 0");
    assert_eq!(s0.as_slice(), b"abc");
    match reader.get(1, None) {
        Err(MsfError::StreamNotFound(1)) => {}
        other => panic!("expected StreamNotFound(1), got {:?}", other.map(|s| s.as_slice().len())),
    }
    let s2 = reader.get(2, None).expect("stream 2");
    assert_eq!(s2.as_slice().len(), 0);
    let s3 = reader.get(3, None).expect("stream 3");
    assert_eq!(s3.as_slice(), long.as_slice());
}

#[test]
fn empty_stream_at_index_three() {
    let streams = vec![
        Some(b"a".to_vec()),
        Some(b"b".to_vec()),
        Some(b"c".to_vec()),
        Some(Vec::new()),
    ];
    let file = build_big(&streams, 4096);
    let mut reader = open_msf(MemorySource::new(file)).expect("open");
    let s3 = reader.get(3, None).expect("stream 3");
    assert_eq!(s3.as_slice().len(), 0);
}

#[test]
fn absent_stream_skips_no_pages() {
    let streams = vec![
        Some(b"first".to_vec()),
        Some(b"second".to_vec()),
        None,
        Some(b"after the gap".to_vec()),
    ];
    let file = build_big(&streams, 4096);
    let mut reader = open_msf(MemorySource::new(file)).expect("open");
    match reader.get(2, None) {
        Err(MsfError::StreamNotFound(2)) => {}
        _ => panic!("expected StreamNotFound(2)"),
    }
    let s3 = reader.get(3, None).expect("stream 3");
    assert_eq!(s3.as_slice(), b"after the gap");
}

#[test]
fn out_of_range_request() {
    let streams = vec![
        Some(b"0".to_vec()),
        Some(b"1".to_vec()),
        Some(b"2".to_vec()),
        Some(b"3".to_vec()),
        Some(b"4".to_vec()),
    ];
    let file = build_big(&streams, 4096);
    let mut reader = open_msf(MemorySource::new(file)).expect("open");
    match reader.get(5, None) {
        Err(MsfError::StreamNotFound(5)) => {}
        _ => panic!("expected StreamNotFound(5)"),
    }
}

#[test]
fn corrupt_page_reference_zero() {
    let streams = vec![Some(b"hello world!".to_vec())];
    let mut file = build_big(&streams, 4096);
    // Directory sits on page 2; the stream's one page number is its third
    // 32-bit word.
    set_u32(&mut file, 2 * 4096 + 8, 0);
    let mut reader = open_msf(MemorySource::new(file)).expect("open");
    match reader.get(0, None) {
        Err(MsfError::PageReferenceOutOfRange(0)) => {}
        _ => panic!("expected PageReferenceOutOfRange(0)"),
    }
}

#[test]
fn corrupt_page_reference_past_end() {
    let streams = vec![Some(b"hello world!".to_vec())];
    let mut file = build_big(&streams, 4096);
    // pages_used is 3 for this layout; 4 is one past the last valid page.
    set_u32(&mut file, 2 * 4096 + 8, 4);
    let mut reader = open_msf(MemorySource::new(file)).expect("open");
    match reader.get(0, None) {
        Err(MsfError::PageReferenceOutOfRange(4)) => {}
        _ => panic!("expected PageReferenceOutOfRange(4)"),
    }
}

#[test]
fn big_dispatch_hello_world() {
    // A file whose first 32 bytes match the Big magic, with page_size 4096
    // and pages_used 8: one stream of 12 bytes on page 4, directory on
    // page 2, directory page list on page 3.
    let ps = 4096usize;
    let mut file = vec![0u8; 5 * ps];
    file[0..32].copy_from_slice(&big_magic());
    set_u32(&mut file, 32, 4096);
    set_u32(&mut file, 36, 0);
    set_u32(&mut file, 40, 8);
    set_u32(&mut file, 44, 12);
    set_u32(&mut file, 48, 0);
    set_u32(&mut file, 52, 3);
    set_u32(&mut file, 3 * ps, 2);
    set_u32(&mut file, 2 * ps, 1);
    set_u32(&mut file, 2 * ps + 4, 12);
    set_u32(&mut file, 2 * ps + 8, 4);
    file[4 * ps..4 * ps + 12].copy_from_slice(b"hello world!");
    let mut reader = open_msf(MemorySource::new(file)).expect("open");
    assert!(matches!(reader, MsfReader::Big(_)));
    let s = reader.get(0, None).expect("stream 0");
    assert_eq!(s.as_slice(), b"hello world!");
}

#[test]
fn small_round_trip() {
    let streams = vec![
        Some(b"hello".to_vec()),
        None,
        Some(b"world, again".to_vec()),
    ];
    let file = build_small(&streams, 4096);
    let mut reader = open_msf(MemorySource::new(file)).expect("open");
    assert!(matches!(reader, MsfReader::Small(_)));
    let s0 = reader.get(0, None).expect("stream 0");
    assert_eq!(s0.as_slice(), b"hello");
    match reader.get(1, None) {
        Err(MsfError::StreamNotFound(1)) => {}
        _ => panic!("expected StreamNotFound(1)"),
    }
    let s2 = reader.get(2, None).expect("stream 2");
    assert_eq!(s2.as_slice(), b"world, again");
    match reader.get(3, None) {
        Err(MsfError::StreamNotFound(3)) => {}
        _ => panic!("expected StreamNotFound(3)"),
    }
}

#[test]
fn idempotent_get() {
    let streams = vec![Some(b"same bytes both times".to_vec())];
    let file = build_big(&streams, 4096);
    let mut reader = open_msf(MemorySource::new(file)).expect("open");
    let first = reader.get(0, None).expect("first get");
    let second = reader.get(0, None).expect("second get");
    assert_eq!(first.as_slice(), second.as_slice());
    assert_eq!(first.as_slice().len(), second.as_slice().len());
}

#[test]
fn lazy_directory_requests() {
    let streams = vec![Some(b"hello world!".to_vec())];
    let file = build_big(&streams, 4096);
    let mut reader = open_msf(MemorySource::new(file)).expect("open");
    {
        let log = reader.transport().requested();
        assert_eq!(log.len(), 1);
        assert_eq!(log[0].offset, 0);
        assert_eq!(log[0].size, 4096);
    }
    reader.get(0, None).expect("first get");
    let after_first = reader.transport().requested().len();
    // One request for the directory's page list, one for the directory,
    // one for the stream's single page.
    assert_eq!(after_first, 4);
    reader.get(0, None).expect("second get");
    let after_second = reader.transport().requested().len();
    // The cached directory is not fetched again: only the stream's page.
    assert_eq!(after_second, after_first + 1);
}

#[test]
fn limit_caps_stream_length() {
    let streams = vec![Some(b"hello world!".to_vec())];
    let file = build_big(&streams, 4096);
    let mut reader = open_msf(MemorySource::new(file)).expect("open");
    let s = reader.get(0, Some(5)).expect("limited get");
    assert_eq!(s.as_slice(), b"hello");
    let s2 = reader.get(0, Some(100)).expect("loosely limited get");
    assert_eq!(s2.as_slice(), b"hello world!");
}

#[test]
fn transport_error_on_truncated_file() {
    let streams = vec![Some(b"hello world!".to_vec())];
    let mut file = build_big(&streams, 4096);
    // Keep the header page only: every later page read hits end of file.
    file.truncate(4096);
    let mut reader = open_msf(MemorySource::new(file)).expect("open");
    match reader.get(0, None) {
        Err(MsfError::Transport(SourceError::UnexpectedEof)) => {}
        _ => panic!("expected Transport(UnexpectedEof)"),
    }
}

#[test]
fn parse_error_on_truncated_directory() {
    let streams = vec![Some(b"hello world!".to_vec())];
    let mut file = build_big(&streams, 4096);
    // Claim the directory is 2 bytes: too short to hold a stream count.
    set_u32(&mut file, 44, 2);
    let mut reader = open_msf(MemorySource::new(file)).expect("open");
    match reader.get(0, None) {
        Err(MsfError::ParseError) => {}
        _ => panic!("expected ParseError"),
    }
}

#[test]
fn invalid_page_size_is_rejected() {
    let streams = vec![Some(b"hello world!".to_vec())];
    let mut file = build_big(&streams, 4096);
    set_u32(&mut file, 32, 1000);
    match open_msf(MemorySource::new(file)) {
        Err(MsfError::InvalidPageSize(1000)) => {}
        _ => panic!("expected InvalidPageSize(1000)"),
    }
}

#[test]
fn big_multipage_directory() {
    // 200 one-page streams make the directory span four 512-byte pages,
    // so the page-list-of-page-list indirection really gets exercised.
    let streams: Vec<Option<Vec<u8>>> = (0..200u32)
        .map(|i| Some(vec![(i % 251) as u8; 100]))
        .collect();
    let file = build_big(&streams, 512);
    let mut reader = open_msf(MemorySource::new(file)).expect("open");
    let s0 = reader.get(0, None).expect("stream 0");
    assert_eq!(s0.as_slice(), vec![0u8; 100].as_slice());
    let s100 = reader.get(100, None).expect("stream 100");
    assert_eq!(s100.as_slice(), vec![100u8; 100].as_slice());
    let s199 = reader.get(199, None).expect("stream 199");
    assert_eq!(s199.as_slice(), vec![199u8; 100].as_slice());
}

#[test]
fn small_stream_crossing_pages() {
    let content: Vec<u8> = (0..1300u32).map(|i| (i % 249) as u8).collect();
    let streams = vec![Some(content.clone())];
    let file = build_small(&streams, 512);
    let mut reader = open_msf(MemorySource::new(file)).expect("open");
    let s0 = reader.get(0, None).expect("stream 0");
    assert_eq!(s0.as_slice(), content.as_slice());
    let limited = reader.get(0, Some(700)).expect("limited");
    assert_eq!(limited.as_slice(), &content[..700]);
}

use msf::Header;
use msf::MsfError;

#[test]
fn test_pages_needed_to_store() {
    let h = Header {
        page_size: 4096,
        maximum_valid_page_number: 15,
    };
    assert_eq!(h.pages_needed_to_store(0), 0);
    assert_eq!(h.pages_needed_to_store(1), 1);
    assert_eq!(h.pages_needed_to_store(1024), 1);
    assert_eq!(h.pages_needed_to_store(2048), 1);
    assert_eq!(h.pages_needed_to_store(4095), 1);
    assert_eq!(h.pages_needed_to_store(4096), 1);
    assert_eq!(h.pages_needed_to_store(4097), 2);
}

#[test]
fn test_validate_page_number() {
    let h = Header {
        page_size: 4096,
        maximum_valid_page_number: 15,
    };
    assert!(matches!(
        h.validate_page_number(0),
        Err(MsfError::PageReferenceOutOfRange(0))
    ));
    assert!(matches!(h.validate_page_number(1), Ok(1)));
    assert!(matches!(h.validate_page_number(2), Ok(2)));
    assert!(matches!(h.validate_page_number(14), Ok(14)));
    assert!(matches!(h.validate_page_number(15), Ok(15)));
    assert!(matches!(
        h.validate_page_number(16),
        Err(MsfError::PageReferenceOutOfRange(16))
    ));
    assert!(matches!(
        h.validate_page_number(17),
        Err(MsfError::PageReferenceOutOfRange(17))
    ));
}

#[test]
fn page_list_slices_cover_length() {
    let mut pl = msf::PageList::new(4096);
    pl.push(3);
    pl.push(7);
    pl.push(2);
    pl.truncate(9000);
    assert_eq!(pl.len(), 9000);
    let slices = pl.source_slices();
    assert_eq!(slices.len(), 3);
    assert_eq!(slices[0].offset, 3 * 4096);
    assert_eq!(slices[0].size, 4096);
    assert_eq!(slices[1].offset, 7 * 4096);
    assert_eq!(slices[1].size, 4096);
    assert_eq!(slices[2].offset, 2 * 4096);
    assert_eq!(slices[2].size, 9000 - 2 * 4096);
    let total: usize = slices.iter().map(|s| s.size).sum();
    assert_eq!(total as u64, pl.len());
}

#[test]
fn page_list_truncate_drops_whole_pages() {
    let mut pl = msf::PageList::new(4096);
    pl.push(1);
    pl.push(2);
    pl.push(3);
    pl.truncate(4096);
    assert_eq!(pl.len(), 4096);
    let slices = pl.source_slices();
    assert_eq!(slices.len(), 1);
    assert_eq!(slices[0].offset, 4096);
    assert_eq!(slices[0].size, 4096);
}

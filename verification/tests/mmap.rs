use mm::mmap::{
    after_bitset_attempt, after_map_attempt, map_buffer_pages, BitsetStep, MapStep,
    BITSET_ATTEMPTS, MAP_RETRIES,
};
use mm::uefi::{Error, Status, StatusError};

fn failed(error: Error) -> Result<(), StatusError> {
    Err(StatusError::from(error))
}

fn error_of(pages: Result<usize, StatusError>) -> Option<(Status, Error)> {
    pages.err().map(|e| (e.code, e.error))
}

#[test]
fn buffer_has_room_for_four_descriptors_more() {
    let pages = map_buffer_pages(failed(Error::BufferTooSmall), None, 4800, 48);
    // 4800 + 192 + 4095 bytes, in pages
    assert_eq!(pages.ok(), Some(2));
    assert_eq!(map_buffer_pages(failed(Error::BufferTooSmall), None, 0, 48).ok(), Some(1));
    assert_eq!(map_buffer_pages(failed(Error::BufferTooSmall), None, 3904, 48).ok(), Some(1));
    assert_eq!(map_buffer_pages(failed(Error::BufferTooSmall), None, 3905, 48).ok(), Some(2));
}

#[test]
fn kept_buffer_is_tried_first() {
    assert_eq!(map_buffer_pages(failed(Error::BufferTooSmall), Some(7), 4800, 48).ok(), Some(7));
}

#[test]
fn probe_must_not_succeed() {
    let got = error_of(map_buffer_pages(Ok(()), None, 4800, 48));
    assert_eq!(got.map(|e| e.1), Some(Error::CompromisedData));
    assert_eq!(got.map(|e| e.0), Some(StatusError::from(Error::CompromisedData).code));
    let got = error_of(map_buffer_pages(Ok(()), Some(3), 4800, 48));
    assert_eq!(got.map(|e| e.1), Some(Error::CompromisedData));
}

#[test]
fn other_errors_of_the_probe_are_returned() {
    let status = Status(0x8000_0000_0000_0002);
    let probe = Err(StatusError { code: status, error: Error::InvalidParameter });
    let got = error_of(map_buffer_pages(probe, Some(3), 4800, 48));
    assert_eq!(got, Some((status, Error::InvalidParameter)));
}

#[test]
fn fetched_map_counts_its_descriptors() {
    assert_eq!(after_map_attempt(true, 3, 2, 4800, 48), MapStep::Done { elements: 100 });
    assert_eq!(after_map_attempt(true, 0, 2, 4799, 48), MapStep::Done { elements: 99 });
}

#[test]
fn failed_fetch_tries_a_page_more() {
    assert_eq!(MAP_RETRIES, 3);
    assert_eq!(
        after_map_attempt(false, 3, 2, 4800, 48),
        MapStep::Retry { page_count: 3, retries: 2 }
    );
    assert_eq!(
        after_map_attempt(false, 1, 4, 4800, 48),
        MapStep::Retry { page_count: 5, retries: 0 }
    );
    assert_eq!(after_map_attempt(false, 0, 5, 4800, 48), MapStep::GiveUp);
}

#[test]
fn fetch_gives_up_after_four_attempts() {
    let mut retries = MAP_RETRIES;
    let mut page_count = 1;
    let mut attempts = 1;
    while let MapStep::Retry { page_count: next, retries: left } =
        after_map_attempt(false, retries, page_count, 0, 48)
    {
        page_count = next;
        retries = left;
        attempts += 1;
    }
    assert_eq!(attempts, 4);
    assert_eq!(page_count, 4);
}

#[test]
fn bitset_memory_suffices_where_the_map_asks_for_no_more() {
    assert_eq!(after_bitset_attempt(3, 3, 0), BitsetStep::Done { words: 1536 });
    assert_eq!(after_bitset_attempt(3, 2, 4), BitsetStep::Done { words: 1024 });
    assert_eq!(after_bitset_attempt(3, 0, 0), BitsetStep::Done { words: 0 });
}

#[test]
fn bitset_memory_is_asked_for_five_times() {
    assert_eq!(BITSET_ATTEMPTS, 5);
    assert_eq!(after_bitset_attempt(3, 4, 0), BitsetStep::Retry { attempts: 1 });
    assert_eq!(after_bitset_attempt(3, 4, 3), BitsetStep::Retry { attempts: 4 });
    assert_eq!(after_bitset_attempt(3, 4, 4), BitsetStep::GiveUp);
}

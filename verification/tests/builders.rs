use header_arc::{Arc, BuildError, HeaderSlice, HeaderWithLength, LayoutError};
use std::iter;

/// A producer that declares one number of elements and yields another.
struct Misreporting {
    yielded: std::vec::IntoIter<u16>,
    declared: usize,
}

impl Misreporting {
    fn new(yielded: Vec<u16>, declared: usize) -> Self {
        Misreporting { yielded: yielded.into_iter(), declared }
    }
}

impl Iterator for Misreporting {
    type Item = u16;

    fn next(&mut self) -> Option<u16> {
        self.yielded.next()
    }

    fn size_hint(&self) -> (usize, Option<usize>) {
        (self.declared, Some(self.declared))
    }
}

impl ExactSizeIterator for Misreporting {
    fn len(&self) -> usize {
        self.declared
    }
}

#[test]
fn from_header_and_iter_smoke() {
    let arc = Arc::from_header_and_iter(
        (42u32, 17u8),
        IntoIterator::into_iter([1u16, 2, 3, 4, 5, 6, 7]),
    )
    .unwrap();

    assert_eq!(arc.header, (42, 17));
    assert_eq!(arc.slice, [1, 2, 3, 4, 5, 6, 7]);
}

#[test]
fn from_header_and_slice_smoke() {
    let arc = Arc::from_header_and_slice((42u32, 17u8), &[1u16, 2, 3, 4, 5, 6, 7]).unwrap();

    assert_eq!(arc.header, (42, 17));
    assert_eq!(arc.slice, [1u16, 2, 3, 4, 5, 6, 7]);
}

#[test]
fn from_header_and_iter_empty() {
    let arc = Arc::from_header_and_iter((42u32, 17u8), iter::empty::<u16>()).unwrap();

    assert_eq!(arc.header, (42, 17));
    assert_eq!(arc.slice, []);
}

#[test]
fn from_header_and_slice_empty() {
    let arc = Arc::from_header_and_slice((42u32, 17u8), &[1u16; 0]).unwrap();

    assert_eq!(arc.header, (42, 17));
    assert_eq!(arc.slice, []);
}

#[test]
fn issue_13_empty() {
    Arc::from_header_and_iter((), iter::empty::<usize>()).unwrap();
}

#[test]
fn issue_13_consumption() {
    let s: &[u8] = &[0u8; 255];
    Arc::from_header_and_iter((), s.iter().copied()).unwrap();
}

#[test]
fn from_header_and_str_smoke() {
    let a = Arc::from_header_and_str(
        42,
        "The answer to the ultimate question of life, the universe, and everything",
    )
    .unwrap();
    assert_eq!(a.header, 42);
    assert_eq!(
        &a.slice,
        "The answer to the ultimate question of life, the universe, and everything"
    );

    let empty = Arc::from_header_and_str((), "").unwrap();
    assert_eq!(empty.header, ());
    assert_eq!(&empty.slice, "");
}

#[test]
fn new_block_counts_one_handle() {
    let from_iter = Arc::from_header_and_iter(1u8, IntoIterator::into_iter([1u32, 2])).unwrap();
    let from_slice = Arc::from_header_and_slice(1u8, &[1u32, 2]).unwrap();
    let from_str = Arc::from_header_and_str(1u8, "text").unwrap();
    let plain = Arc::new(5u64);

    assert_eq!(from_iter.strong_count(), 1);
    assert_eq!(from_slice.strong_count(), 1);
    assert_eq!(from_str.strong_count(), 1);
    assert_eq!(plain.strong_count(), 1);
    assert_eq!(*plain, 5);
}

#[test]
fn iter_round_trip_keeps_order() {
    let elements: Vec<u64> = (0..1000u64).map(|i| i * i + 7).collect();
    let arc = Arc::from_header_and_iter("header", elements.clone().into_iter()).unwrap();
    let payload: &HeaderSlice<&str, Vec<u64>> = &arc;

    assert_eq!(payload.header, "header");
    assert_eq!(payload.slice, elements);
    assert_eq!(payload.slice.len(), 1000);
    assert_eq!(payload.slice[999], 999 * 999 + 7);
}

#[test]
fn iter_takes_elements_that_are_not_copied() {
    let elements = vec![String::from("a"), String::from("bc"), String::new()];
    let arc = Arc::from_header_and_iter(7i8, elements.clone().into_iter()).unwrap();

    assert_eq!(arc.header, 7);
    assert_eq!(arc.slice, elements);
}

#[test]
fn slice_round_trip_keeps_order() {
    let elements: Vec<i32> = (0..513).map(|i| 3 - i).collect();
    let arc = Arc::from_header_and_slice([9u8; 3], &elements).unwrap();

    assert_eq!(arc.header, [9u8; 3]);
    assert_eq!(arc.slice, elements);
}

#[test]
fn iter_with_len_builds_from_an_honest_count() {
    let arc =
        Arc::from_header_and_iter_with_len(1u8, 3, IntoIterator::into_iter([5u16, 6, 7])).unwrap();

    assert_eq!(arc.header, 1);
    assert_eq!(arc.slice, [5, 6, 7]);

    let empty = Arc::from_header_and_iter_with_len(1u8, 0, iter::empty::<u16>()).unwrap();
    assert_eq!(empty.header, 1);
    assert!(empty.slice.is_empty());
}

#[test]
fn iter_with_len_refuses_one_element_too_few() {
    let r = Arc::from_header_and_iter_with_len((), 3, IntoIterator::into_iter([5u16, 6]));

    assert_eq!(r.err(), Some(BuildError::OverReported));
}

#[test]
fn iter_with_len_refuses_one_element_too_many() {
    let r = Arc::from_header_and_iter_with_len((), 3, IntoIterator::into_iter([5u16, 6, 7, 8]));

    assert_eq!(r.err(), Some(BuildError::UnderReported));
}

#[test]
fn iter_with_len_refuses_elements_behind_a_zero_count() {
    let r = Arc::from_header_and_iter_with_len((), 0, IntoIterator::into_iter([5u16]));
    assert_eq!(r.err(), Some(BuildError::UnderReported));

    let r = Arc::from_header_and_iter_with_len((), 1, iter::empty::<u16>());
    assert_eq!(r.err(), Some(BuildError::OverReported));
}

#[test]
fn declared_length_is_asked_of_the_producer() {
    let honest = Arc::from_header_and_iter((), Misreporting::new(vec![1, 2, 3], 3)).unwrap();
    assert_eq!(honest.slice, [1, 2, 3]);

    let over = Arc::from_header_and_iter((), Misreporting::new(vec![1, 2, 3], 4));
    assert_eq!(over.err(), Some(BuildError::OverReported));

    let under = Arc::from_header_and_iter((), Misreporting::new(vec![1, 2, 3], 2));
    assert_eq!(under.err(), Some(BuildError::UnderReported));

    let none_declared = Arc::from_header_and_iter((), Misreporting::new(vec![1], 0));
    assert_eq!(none_declared.err(), Some(BuildError::UnderReported));
}

#[test]
fn zero_sized_elements_are_refused() {
    let zero_sized = BuildError::Layout(LayoutError::ZeroSizedElement);

    let r = Arc::from_header_and_iter(1u8, IntoIterator::into_iter([(), ()]));
    assert_eq!(r.err(), Some(zero_sized));

    let r = Arc::from_header_and_iter(1u8, iter::empty::<()>());
    assert_eq!(r.err(), Some(zero_sized));

    let r = Arc::from_header_and_iter_with_len(1u8, 0, iter::empty::<[u64; 0]>());
    assert_eq!(r.err(), Some(zero_sized));

    let r = Arc::from_header_and_slice(1u8, &[(); 3]);
    assert_eq!(r.err(), Some(LayoutError::ZeroSizedElement));
}

#[test]
fn a_missing_layout_comes_before_a_broken_declaration() {
    let r = Arc::from_header_and_iter((), Misreporting::new(vec![1, 2, 3], usize::MAX));
    assert_eq!(r.err(), Some(BuildError::Layout(LayoutError::SizeOverflow)));

    let r = Arc::from_header_and_iter_with_len((), usize::MAX / 2 + 1, iter::empty::<u16>());
    assert_eq!(r.err(), Some(BuildError::Layout(LayoutError::SizeOverflow)));

    let r = Arc::from_header_and_iter_with_len((), usize::MAX / 4, iter::empty::<u16>());
    assert_eq!(r.err(), Some(BuildError::Layout(LayoutError::InvalidLayout)));
}

#[test]
fn inline_length_equals_written_length() {
    for n in [0usize, 1, 2, 17, 300] {
        let elements: Vec<u32> = (0..n as u32).collect();

        let built = Arc::from_header_and_iter(
            HeaderWithLength::new('h', elements.len()),
            elements.clone().into_iter(),
        )
        .unwrap();
        assert_eq!(built.header.header, 'h');
        assert_eq!(built.header.length, n);
        assert_eq!(built.header.length, built.slice.len());

        let copied =
            Arc::from_header_and_slice(HeaderWithLength::new('h', elements.len()), &elements)
                .unwrap();
        assert_eq!(copied.header.length, n);
        assert_eq!(copied.header.length, copied.slice.len());
        assert_eq!(copied.slice, elements);
    }
}

#[test]
fn header_with_length_holds_what_it_was_given() {
    let h = HeaderWithLength::new((42u32, 17u8), 7);

    assert_eq!(h.header, (42, 17));
    assert_eq!(h.length, 7);
    assert_eq!(h, HeaderWithLength { header: (42, 17), length: 7 });
}

#[test]
fn text_is_byte_identical() {
    let text = "z\u{df}\u{6771}\u{1f600} and plain";
    let arc = Arc::from_header_and_str(vec![1u8, 2], text).unwrap();

    assert_eq!(arc.header, [1, 2]);
    assert_eq!(arc.slice, text);
    assert_eq!(arc.slice.as_bytes(), text.as_bytes());
    assert_eq!(arc.slice.len(), 20);
}

#[test]
fn empty_text_gives_empty_text() {
    let arc = Arc::from_header_and_str((42u32, 17u8), "").unwrap();

    assert_eq!(arc.header, (42, 17));
    assert_eq!(arc.slice, "");
    assert!(arc.slice.is_empty());
}

#[test]
fn into_inner_gives_the_payload_back() {
    let arc = Arc::from_header_and_slice((42u32, 17u8), &[1u16, 2, 3]).unwrap();
    let HeaderSlice { header, slice } = arc.into_inner();

    assert_eq!(header, (42, 17));
    assert_eq!(slice, [1, 2, 3]);
    assert_eq!(Arc::new(String::from("payload")).into_inner(), "payload");
}

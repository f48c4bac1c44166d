use korangar::formats::{AssetTable, Header};
use korangar::stream::{ByteStream, ConversionError, InternalVersion, RingBuffer, Version};

struct Format;

#[test]
fn next_reads_bytes_in_order() {
    let data = [7u8, 8, 9];
    let mut stream = ByteStream::new(&data);

    assert_eq!(stream.next::<Header>().unwrap(), 7);
    assert_eq!(stream.next::<Header>().unwrap(), 8);
    assert_eq!(stream.get_offset(), 2);
    assert!(!stream.is_empty());
    assert_eq!(stream.next::<Header>().unwrap(), 9);
    assert!(stream.is_empty());
}

#[test]
fn next_past_the_end_fails_and_names_the_record() {
    let data = [1u8];
    let mut stream = ByteStream::new(&data);
    stream.next::<Header>().unwrap();

    let error = stream.next::<Header>().unwrap_err();
    assert_eq!(*error, ConversionError { record: "Header", requested: 1, available: 0 });
    assert_eq!(stream.get_offset(), 1);

    let error = stream.next::<AssetTable>().unwrap_err();
    assert_eq!(error.record, "AssetTable");
}

#[test]
fn slice_borrows_the_bytes_asked_for() {
    let data = [1u8, 2, 3, 4, 5];
    let mut stream = ByteStream::new(&data);
    stream.skip(1);

    assert_eq!(stream.slice::<Header>(3).unwrap(), &[2, 3, 4]);
    assert_eq!(stream.get_offset(), 4);
    assert_eq!(stream.slice::<Header>(0).unwrap(), &[] as &[u8]);
    assert_eq!(stream.slice::<Header>(1).unwrap(), &[5]);
    assert!(stream.is_empty());
    assert_eq!(stream.slice::<Header>(0).unwrap(), &[] as &[u8]);
}

#[test]
fn slice_of_one_byte_too_many_fails_without_moving() {
    let data = [1u8, 2, 3, 4, 5];
    let mut stream = ByteStream::new(&data);
    stream.skip(2);

    let error = stream.slice::<AssetTable>(4).unwrap_err();
    assert_eq!(*error, ConversionError { record: "AssetTable", requested: 4, available: 3 });
    assert_eq!(stream.get_offset(), 2);
    assert_eq!(stream.slice::<AssetTable>(3).unwrap(), &[3, 4, 5]);
}

#[test]
fn slice_of_a_huge_count_fails() {
    let data = [1u8, 2];
    let mut stream = ByteStream::new(&data);
    stream.skip(1);

    let error = stream.slice::<Header>(usize::MAX).unwrap_err();
    assert_eq!(*error, ConversionError { record: "Header", requested: usize::MAX, available: 1 });
}

#[test]
fn skip_may_pass_the_end_and_reads_then_fail() {
    let data = [1u8, 2];
    let mut stream = ByteStream::new(&data);
    stream.skip(5);

    assert_eq!(stream.get_offset(), 5);
    assert!(stream.is_empty());
    assert_eq!(stream.available(), 0);
    assert!(stream.next::<Header>().is_err());
    let error = stream.slice::<Header>(0).unwrap_err();
    assert_eq!(*error, ConversionError { record: "Header", requested: 0, available: 0 });
    assert_eq!(stream.get_offset(), 5);
}

#[test]
fn set_offset_moves_back_and_forth() {
    let data = [1u8, 2, 3];
    let mut stream = ByteStream::new(&data);
    stream.set_offset(2);
    assert_eq!(stream.next::<Header>().unwrap(), 3);
    stream.set_offset(0);
    assert_eq!(stream.next::<Header>().unwrap(), 1);
    stream.set_offset(9);
    assert!(stream.is_empty());
}

#[test]
fn remaining_bytes_copies_the_rest_and_ends_the_stream() {
    let data = [1u8, 2, 3, 4];
    let mut stream = ByteStream::new(&data);
    stream.skip(1);

    assert_eq!(stream.remaining_bytes(), vec![2, 3, 4]);
    assert_eq!(stream.get_offset(), 4);
    assert!(stream.is_empty());
    assert_eq!(stream.remaining_bytes(), Vec::<u8>::new());
}

#[test]
fn remaining_bytes_past_the_end_is_empty() {
    let data = [1u8, 2, 3, 4];
    let mut stream = ByteStream::new(&data);
    stream.skip(6);

    assert_eq!(stream.remaining_bytes(), Vec::<u8>::new());
    assert_eq!(stream.get_offset(), 4);
}

#[test]
fn an_empty_buffer_is_empty_at_once() {
    let mut stream = ByteStream::new(&[]);

    assert!(stream.is_empty());
    assert_eq!(stream.assert_empty(), None);
    assert!(stream.next::<Header>().is_err());
}

#[test]
fn version_is_kept_once_set() {
    let data = [0u8; 2];
    let mut stream = ByteStream::new(&data);
    assert_eq!(stream.version(), None);

    stream.set_version(Version::<Format>::new(2, 5));
    assert_eq!(stream.get_version(), InternalVersion { major: 2, minor: 5 });
    assert_eq!(stream.version(), Some(InternalVersion { major: 2, minor: 5 }));

    stream.next::<Header>().unwrap();
    assert_eq!(stream.get_version(), InternalVersion { major: 2, minor: 5 });

    stream.set_version(Version::<Format>::new(1, 9));
    assert_eq!(stream.get_version(), InternalVersion { major: 1, minor: 9 });
}

#[test]
fn versions_compare_by_major_then_minor() {
    let version = InternalVersion::from(Version::<Format>::new(2, 5));

    assert!(version.equals_or_above(2, 5));
    assert!(version.equals_or_above(2, 4));
    assert!(version.equals_or_above(1, 9));
    assert!(!version.equals_or_above(2, 6));
    assert!(!version.equals_or_above(3, 0));
    assert!(version.smaller(2, 6));
    assert!(version.smaller(3, 0));
    assert!(!version.smaller(2, 5));
    assert!(!version.smaller(1, 9));
}

#[test]
fn assert_empty_reports_what_is_left() {
    let data = [1u8, 2, 3];
    let mut stream = ByteStream::new(&data);
    assert_eq!(stream.assert_empty(), Some(3));
    stream.skip(2);
    assert_eq!(stream.assert_empty(), Some(1));
    stream.skip(1);
    assert_eq!(stream.assert_empty(), None);
    stream.skip(1);
    assert_eq!(stream.assert_empty(), None);
}

#[test]
fn packets_are_handed_on_oldest_first() {
    let mut stream = ByteStream::new(&[]);
    let mut history = RingBuffer::<4>::new();

    assert!(!stream.transfer_packet_history(&mut history));
    assert_eq!(history.len(), 0);

    stream.incoming_packet("login", false);
    stream.incoming_packet("ping", true);
    assert!(stream.transfer_packet_history(&mut history));
    assert_eq!(history.len(), 2);
    assert_eq!(history.get(0).unwrap().name, "login");
    assert!(!history.get(0).unwrap().is_ping);
    assert_eq!(history.get(1).unwrap().name, "ping");
    assert!(history.get(1).unwrap().is_ping);
    assert_eq!(history.get(2), None);

    assert!(!stream.transfer_packet_history(&mut history));
    assert_eq!(history.len(), 2);
}

#[test]
fn a_full_history_drops_its_oldest_packets() {
    let mut stream = ByteStream::new(&[]);
    let mut history = RingBuffer::<3>::new();

    stream.incoming_packet("a", false);
    stream.incoming_packet("b", false);
    stream.transfer_packet_history(&mut history);
    stream.incoming_packet("c", false);
    stream.incoming_packet("d", false);
    stream.incoming_packet("e", false);
    assert!(stream.transfer_packet_history(&mut history));

    assert_eq!(history.len(), 3);
    assert_eq!(history.get(0).unwrap().name, "c");
    assert_eq!(history.get(1).unwrap().name, "d");
    assert_eq!(history.get(2).unwrap().name, "e");
}

#[test]
fn a_history_without_room_keeps_nothing() {
    let mut stream = ByteStream::new(&[]);
    let mut history = RingBuffer::<0>::new();

    stream.incoming_packet("a", false);
    assert!(stream.transfer_packet_history(&mut history));
    assert_eq!(history.len(), 0);
    assert_eq!(history.get(0), None);
}

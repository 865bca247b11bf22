use messi::packfile::entry::PackfileEntry;
use messi::packfile::error::PackError;
use messi::packfile::handler::{create_packfile, object_header, read_object_header, PackStep, Packfile};
use messi::packfile::object_type::ObjectType;

fn blob(content: &[u8]) -> PackfileEntry {
    PackfileEntry::new(ObjectType::Blob, content.len(), content.to_vec())
}

fn read_all(bytes: Vec<u8>) -> Vec<PackfileEntry> {
    let mut data = vec![0u8];
    data.extend(bytes);
    let mut reader = Packfile::reader(data, ".mgit").unwrap();
    let mut out = Vec::new();
    while let Some(step) = reader.next_step() {
        match step.unwrap() {
            PackStep::Entry(e) => out.push(e),
            PackStep::NeedsBase(h) => panic!("unexpected base {}", h),
        }
    }
    out
}

#[test]
fn packfile_of_one_object_reads_back() {
    let entries = vec![blob(b"hello\n")];
    let pack = create_packfile(&entries);
    assert_eq!(&pack[..12], &[80, 65, 67, 75, 0, 0, 0, 2, 0, 0, 0, 1]);
    assert_eq!(pack.len() > 32, true);
    let read = read_all(pack);
    assert_eq!(read.len(), 1);
    assert_eq!(read[0].obj_type, ObjectType::Blob);
    assert_eq!(read[0].content, b"hello\n".to_vec());
    assert_eq!(read[0].size, 6);
}

#[test]
fn similar_objects_are_written_as_deltas_and_read_back() {
    let base = b"line one\nline two\nline three\n".to_vec();
    let other = b"line one\nline two\nline four\n".to_vec();
    let entries = vec![blob(&base), blob(&other)];
    let pack = create_packfile(&entries);
    let header = object_header(ObjectType::OfsDelta, 7);
    assert!(pack.windows(header.len()).any(|w| w == &header[..]));
    let read = read_all(pack);
    assert_eq!(read.len(), 2);
    assert_eq!(read[0].content, base);
    assert_eq!(read[1].content, other);
    assert_eq!(read[1].obj_type, ObjectType::Blob);
}

#[test]
fn reader_refuses_bad_starts() {
    assert_eq!(Packfile::reader(vec![0, 80, 65], ".mgit").err(), Some(PackError::UnexpectedEof));
    assert_eq!(Packfile::reader(vec![0, 80, 65, 67, 74, 0], ".mgit").err(), Some(PackError::InvalidSignature));
    assert_eq!(Packfile::reader(vec![0, 255, 65, 67, 75, 0], ".mgit").err(), Some(PackError::InvalidUtf8));
    assert_eq!(
        Packfile::reader(vec![0, 80, 65, 67, 75, 0, 0, 0, 3, 0, 0, 0, 0], ".mgit").err(),
        Some(PackError::UnsupportedVersion)
    );
    let empty = Packfile::reader(vec![0, 80, 65, 67, 75, 0, 0, 0, 2, 0, 0, 0, 0], ".mgit");
    assert!(empty.is_ok());
    assert!(empty.unwrap().next_step().is_none());
}

#[test]
fn object_headers_read_back() {
    let header = object_header(ObjectType::Blob, 300);
    assert_eq!(header, vec![0xBC, 0x12]);
    assert_eq!(read_object_header(&header, 0), Ok((ObjectType::Blob, 300, 2)));
    assert_eq!(ObjectType::Tree.as_byte(), 2);
}

#[test]
fn loose_object_data_is_parsed() {
    let entry = PackfileEntry::from_object_data(b"blob 5\0hello").unwrap();
    assert_eq!(entry.obj_type, ObjectType::Blob);
    assert_eq!(entry.size, 5);
    assert_eq!(entry.content, b"hello".to_vec());
}

#[test]
fn empty_object_after_one_of_another_type_is_packed() {
    let entries = vec![blob(b"hello\n"), PackfileEntry::new(ObjectType::Tree, 0, vec![])];
    let pack = create_packfile(&entries);
    assert_eq!(&pack[..12], &[80, 65, 67, 75, 0, 0, 0, 2, 0, 0, 0, 2]);
    let read = read_all(pack);
    assert_eq!(read.len(), 2);
    assert_eq!(read[1].obj_type, ObjectType::Tree);
    assert_eq!(read[1].content, Vec::<u8>::new());
}

use mmap_lines::reader::{MReader, Stat};

fn reader_for(data: &[u8]) -> MReader<'_> {
    let stat = Stat { st_size: data.len() as i64, ..Stat::default() };
    MReader::new(3, stat, data)
}

#[test]
fn three_lines() {
    let data: &[u8] = b"a\nbb\nccc\n";
    let reader = reader_for(data);
    let mut it = reader.into_iter();
    assert_eq!(it.next(), Some(b"a".as_slice()));
    assert_eq!(it.next(), Some(b"bb".as_slice()));
    assert_eq!(it.next(), Some(b"ccc".as_slice()));
    assert_eq!(it.next(), None);
}

#[test]
fn empty_file() {
    let data: &[u8] = b"";
    let reader = reader_for(data);
    let mut it = reader.into_iter();
    assert_eq!(it.next(), None);
}

#[test]
fn no_trailing_newline() {
    let data: &[u8] = b"only-line";
    let reader = reader_for(data);
    let mut it = reader.into_iter();
    assert_eq!(it.next(), None);
}

#[test]
fn trailing_partial_dropped() {
    let data: &[u8] = b"a\nbb";
    let reader = reader_for(data);
    let mut it = reader.into_iter();
    assert_eq!(it.next(), Some(b"a".as_slice()));
    assert_eq!(it.next(), None);
}

#[test]
fn empty_lines_kept() {
    let data: &[u8] = b"x\n\ny\n";
    let reader = reader_for(data);
    let mut it = reader.into_iter();
    assert_eq!(it.next(), Some(b"x".as_slice()));
    assert_eq!(it.next(), Some(b"".as_slice()));
    assert_eq!(it.next(), Some(b"y".as_slice()));
    assert_eq!(it.next(), None);
}

#[test]
fn newline_only_bytes() {
    let data: &[u8] = b"\n\n";
    let reader = reader_for(data);
    let mut it = reader.into_iter();
    assert_eq!(it.next(), Some(b"".as_slice()));
    assert_eq!(it.next(), Some(b"".as_slice()));
    assert_eq!(it.next(), None);
}

#[test]
fn round_trip_rebuild() {
    let data: &[u8] = b"a\nbb\nccc\n";
    let reader = reader_for(data);
    let mut it = reader.into_iter();
    let mut rebuilt: Vec<u8> = Vec::new();
    while let Some(line) = it.next() {
        rebuilt.extend_from_slice(line);
        rebuilt.push(b'\n');
    }
    assert_eq!(rebuilt.as_slice(), data);
}

#[test]
fn exhausted_pass_yields_nothing() {
    let data: &[u8] = b"a\nb";
    let reader = reader_for(data);
    let mut it = reader.into_iter();
    assert_eq!(it.next(), Some(b"a".as_slice()));
    assert_eq!(it.next(), None);
    assert_eq!(it.next(), None);
    assert_eq!(it.next(), None);
    let mut fresh = reader.into_iter();
    assert_eq!(fresh.next(), Some(b"a".as_slice()));
}

#[test]
fn fresh_pass_per_iterator() {
    let data: &[u8] = b"one\ntwo\n";
    let reader = reader_for(data);
    let mut first = reader.into_iter();
    assert_eq!(first.next(), Some(b"one".as_slice()));
    assert_eq!(first.next(), Some(b"two".as_slice()));
    assert_eq!(first.next(), None);
    let mut second = reader.into_iter();
    assert_eq!(second.next(), Some(b"one".as_slice()));
}

#[test]
fn long_line() {
    let mut bytes: Vec<u8> = vec![b'z'; 4096];
    bytes.push(b'\n');
    bytes.extend_from_slice(b"tail\n");
    let reader = reader_for(bytes.as_slice());
    let mut it = reader.into_iter();
    assert_eq!(it.next(), Some(vec![b'z'; 4096].as_slice()));
    assert_eq!(it.next(), Some(b"tail".as_slice()));
    assert_eq!(it.next(), None);
}

#[test]
fn stat_default_is_zeroed() {
    let stat = Stat::default();
    assert_eq!(stat.st_dev, 0);
    assert_eq!(stat.st_ino, 0);
    assert_eq!(stat.st_nlink, 0);
    assert_eq!(stat.st_mode, 0);
    assert_eq!(stat.st_uid, 0);
    assert_eq!(stat.st_gid, 0);
    assert_eq!(stat.st_size, 0);
    assert_eq!(stat.st_blksize, 0);
    assert_eq!(stat.st_blocks, 0);
    assert_eq!(stat.st_atime, 0);
    assert_eq!(stat.st_mtime, 0);
    assert_eq!(stat.st_ctime, 0);
    assert_eq!(stat.__unused, [0, 0, 0]);
}

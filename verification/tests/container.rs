use yarn::geometry::{GeometryCompressed, GeometryData};
use yarn::yarn::{Tie, Yarn};
use yarn::yarn::tag_byte;
use yarn::yarn_container::{ContainerError, YarnContainer};

fn sealed() -> Vec<u8> {
    let mut yarn = Yarn::new();
    GeometryData::GeometryCompressed(GeometryCompressed::new(vec![1, 2, 3])).tie(&mut yarn);
    yarn.into_bytes().unwrap()
}

fn drain(container: &mut YarnContainer) -> Vec<u8> {
    let mut out = vec![0u8; container.len()];
    let n = container.read(&mut out);
    assert_eq!(n, out.len());
    out
}

#[test]
fn new_puts_the_tag_first() {
    let mut container = YarnContainer::new(vec![5, 6, 7]);
    assert_eq!(container.len(), 7);
    assert_eq!(drain(&mut container), b"yarn\x05\x06\x07".to_vec());
    assert_eq!(container.len(), 0);
}

#[test]
fn tag_byte_spells_yarn() {
    let tag: Vec<u8> = (0..4).map(tag_byte).collect();
    assert_eq!(tag, b"yarn".to_vec());
}

#[test]
fn into_yarn_reads_what_was_sealed() {
    let bytes = sealed();
    let container = YarnContainer::new(bytes[4..].to_vec());
    let mut yarn = container.into_yarn().unwrap();
    assert_eq!(yarn.len_blocks(), 1);
    match GeometryData::untie(&mut yarn).unwrap() {
        GeometryData::GeometryCompressed(c) => assert_eq!(c.data(), &[1, 2, 3][..]),
        _ => panic!("not the compressed mesh"),
    }
}

#[test]
fn into_yarn_refuses_what_is_no_engine() {
    assert!(YarnContainer::new(vec![]).into_yarn().is_none());
    assert!(YarnContainer::new(vec![1, 2, 3]).into_yarn().is_none());
    let mut container = YarnContainer::new(sealed()[4..].to_vec());
    let mut one = [0u8; 1];
    assert_eq!(container.read(&mut one), 1);
    assert!(container.into_yarn().is_none());
}

#[test]
fn write_then_into_yarn() {
    let bytes = sealed();
    let mut container = YarnContainer::new(vec![]);
    let mut four = [0u8; 4];
    assert_eq!(container.read(&mut four), 4);
    assert_eq!(container.len(), 0);
    for chunk in bytes.chunks(3) {
        assert_eq!(container.write(chunk), Ok(chunk.len()));
    }
    assert_eq!(container.len(), bytes.len());
    assert_eq!(container.into_yarn().unwrap().len_blocks(), 1);
}

#[test]
fn write_refuses_another_tag_as_a_whole() {
    let mut container = YarnContainer::new(vec![]);
    let mut four = [0u8; 4];
    container.read(&mut four);

    assert_eq!(container.write(b"wxyz and more"), Err(ContainerError::InvalidData));
    assert_eq!(container.len(), 0);
    assert_eq!(container.write(b"ya"), Ok(2));
    assert_eq!(container.write(b"r"), Ok(1));
    assert_eq!(container.len(), 3);
    assert_eq!(container.write(b"m"), Err(ContainerError::InvalidData));
    assert_eq!(container.write(b"xn"), Err(ContainerError::InvalidData));
    assert_eq!(container.len(), 3);
    assert_eq!(container.write(b""), Ok(0));
    assert_eq!(container.write(b"n!"), Ok(2));
    assert_eq!(container.len(), 5);
    // Behind the tag anything goes.
    assert_eq!(container.write(b"wxyz"), Ok(4));
    assert_eq!(drain(&mut container), b"yarn!wxyz".to_vec());
}

#[test]
fn write_accepts_fewer_than_four_bytes_unseen() {
    let mut container = YarnContainer::new(vec![]);
    let mut four = [0u8; 4];
    container.read(&mut four);
    assert_eq!(container.write(b"abc"), Ok(3));
    assert_eq!(container.len(), 3);
    assert_eq!(container.write(b"d"), Err(ContainerError::InvalidData));
    assert_eq!(drain(&mut container), b"abc".to_vec());
}

#[test]
fn read_serves_from_the_front() {
    let mut container = YarnContainer::new(vec![1, 2, 3, 4, 5]);
    let mut buf = [0xeeu8; 6];
    assert_eq!(container.read(&mut buf[..2]), 2);
    assert_eq!(&buf, b"ya\xee\xee\xee\xee");
    assert_eq!(container.len(), 7);
    assert_eq!(container.read(&mut buf[..0]), 0);
    assert_eq!(container.len(), 7);
    assert_eq!(container.read(&mut buf), 6);
    assert_eq!(&buf, b"rn\x01\x02\x03\x04");
    let mut buf = [0xeeu8; 6];
    assert_eq!(container.read(&mut buf), 1);
    assert_eq!(&buf, b"\x05\xee\xee\xee\xee\xee");
    assert_eq!(container.read(&mut buf), 0);
    assert_eq!(container.len(), 0);
}

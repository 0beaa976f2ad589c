use xmpeek::error::{ErrorKind, MissingMarker};
use xmpeek::packet::locate;

#[test]
fn locates_packet_after_junk() {
    let data = b"junk<?xpacket begin=\"\" id=\"x\"?>data<?xpacket end=\"w\"?>?>more";
    let p = locate(data).unwrap();
    assert_eq!(p.offset, 4);
    let expected: &[u8] = b"<?xpacket begin=\"\" id=\"x\"?>data<?xpacket end=\"w\"?>";
    assert_eq!(p.bytes, expected.to_vec());
    assert_eq!(p.length, expected.len());
    assert_eq!(&data[p.offset + p.length..], b"?>more");
}

#[test]
fn missing_begin_marker() {
    let r = locate(b"no packet here <?xpacket end=\"w\"?>");
    assert_eq!(r, Err(ErrorKind::PacketNotFound(MissingMarker::Begin)));
    assert_eq!(MissingMarker::Begin.message(), "xpacket beginning marker not found!");
}

#[test]
fn missing_end_marker() {
    let r = locate(b"<?xpacket begin=\"\"?><x/>");
    assert_eq!(r, Err(ErrorKind::PacketNotFound(MissingMarker::EndStart)));
    assert_eq!(MissingMarker::EndStart.message(), "xpacket end marker not found!");
}

#[test]
fn end_marker_before_begin_is_not_used() {
    let r = locate(b"<?xpacket end=\"w\"?><?xpacket begin=\"\"?>");
    assert_eq!(r, Err(ErrorKind::PacketNotFound(MissingMarker::EndStart)));
}

#[test]
fn missing_closing_marker() {
    let r = locate(b"<?xpacket begin=\"\"?><x/><?xpacket end=\"w\"");
    assert_eq!(r, Err(ErrorKind::PacketNotFound(MissingMarker::Closing)));
    assert_eq!(MissingMarker::Closing.message(), "xpacket end not found!");
}

#[test]
fn empty_buffer_is_not_found() {
    assert_eq!(locate(b""), Err(ErrorKind::PacketNotFound(MissingMarker::Begin)));
}

#[test]
fn bare_markers_make_the_smallest_packet() {
    let data = b"<?xpacket begin=<?xpacket end=?>";
    let p = locate(data).unwrap();
    assert_eq!(p.offset, 0);
    assert_eq!(p.length, data.len());
    assert_eq!(&p.bytes[..16], b"<?xpacket begin=");
    assert_eq!(&p.bytes[p.length - 2..], b"?>");
}

#[test]
fn first_of_two_packets_wins() {
    let data = b"..<?xpacket begin=\"1\"?>A<?xpacket end=\"w\"?>..<?xpacket begin=\"2\"?>B<?xpacket end=\"w\"?>";
    let p = locate(data).unwrap();
    assert_eq!(p.offset, 2);
    assert_eq!(p.bytes, b"<?xpacket begin=\"1\"?>A<?xpacket end=\"w\"?>".to_vec());
}

#[test]
fn span_matches_host_bytes() {
    let mut data: Vec<u8> = vec![0xff, 0x00, 0x89];
    data.extend_from_slice(b"<?xpacket begin=\"\xef\xbb\xbf\"?><a/><?xpacket end=\"r\"?>");
    data.extend_from_slice(&[0u8; 100]);
    let p = locate(&data).unwrap();
    assert_eq!(p.offset, 3);
    assert_eq!(p.offset + p.length, data.len() - 100);
    assert_eq!(p.bytes.as_slice(), &data[p.offset..p.offset + p.length]);
}

#[test]
fn large_buffer_is_searched() {
    let mut data: Vec<u8> = vec![b'x'; 5000];
    data.extend_from_slice(b"<?xpacket begin=\"\"?><a/><?xpacket end=\"w\"?>");
    data.extend_from_slice(&vec![b'y'; 5000]);
    let p = locate(&data).unwrap();
    assert_eq!(p.offset, 5000);
    assert_eq!(p.length, 43);
}

#[test]
fn text_decodes_lossily() {
    let data = b"<?xpacket begin=\"\xff\"?>\xc3\xa9<?xpacket end=\"w\"?>";
    let p = locate(data).unwrap();
    assert_eq!(p.text(), "<?xpacket begin=\"\u{fffd}\"?>\u{e9}<?xpacket end=\"w\"?>");
}

use shin_tl::snr::writer::{CountingWriter, RealWriter, Writer};
use shin_tl::versions::LengthKind;

fn same_calls(w: &mut impl Writer) {
    w.put_u8(7);
    w.put_u32(0x0102_0304);
    w.pad_16();
    w.put_string(LengthKind::U16Length, b"ab\0");
    w.put_u16(9);
    w.pad_16();
    w.put(&[1, 2, 3]);
}

#[test]
fn counting_writer_counts_what_real_writer_writes() {
    let start = vec![0xaa; 5];
    let mut c = CountingWriter::new(5);
    let mut w = RealWriter::new(start.clone());
    same_calls(&mut c);
    same_calls(&mut w);
    let bytes = w.into_buffer();
    assert_eq!(c.into_position() as usize, bytes.len());
    assert_eq!(bytes.len(), 16 + 5 + 2 + 9 + 3);
    assert_eq!(&bytes[..5], start.as_slice());
    assert_eq!(&bytes[5..10], &[7, 4, 3, 2, 1]);
    assert_eq!(&bytes[10..16], &[0; 6]);
    assert_eq!(&bytes[16..21], &[3, 0, b'a', b'b', 0]);
}

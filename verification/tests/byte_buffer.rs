use dx_cli::byte_buffer::{BufferError, ByteBuffer};

#[test]
fn reads_big_endian_integers_in_turn() {
    let mut b = ByteBuffer::new(vec![0, 0, 1, 2, 0xff, 0, 0, 0, 0, 0, 0, 0, 3, 7]);
    assert_eq!(b.read_uint32(), Ok(0x102));
    assert_eq!(b.byte_offset(), 4);
    assert_eq!(b.read_uint64(), Ok(0xff00_0000_0000_0000));
    assert_eq!(b.read_uint8(), Ok(3));
    assert_eq!(b.bytes_remaining(), 1);
    assert_eq!(b.read_uint8(), Ok(7));
    assert_eq!(b.bytes_remaining(), 0);
}

#[test]
fn a_short_read_fails_and_moves_to_the_end() {
    let mut b = ByteBuffer::new(vec![1, 2, 3]);
    assert_eq!(b.read_uint32(), Err(BufferError::UnexpectedEof));
    assert_eq!(b.byte_offset(), 3);
    b.reset();
    assert_eq!(b.read_uint64(), Err(BufferError::UnexpectedEof));
    assert_eq!(b.byte_offset(), 3);
    assert_eq!(b.read_uint8(), Err(BufferError::UnexpectedEof));
}

#[test]
fn reading_nothing_always_succeeds() {
    let mut b = ByteBuffer::new(vec![1]);
    b.skip(10);
    assert_eq!(b.read_uint8_array(0), Ok(vec![]));
    assert_eq!(b.byte_offset(), 10);
}

#[test]
fn skip_and_reset_move_the_cursor() {
    let mut b = ByteBuffer::new(vec![9, 8, 7, 6]);
    b.skip(2);
    assert_eq!(b.read_uint8(), Ok(7));
    b.reset();
    assert_eq!(b.byte_offset(), 0);
    assert_eq!(b.read_uint8_array(2), Ok(vec![9, 8]));
    assert_eq!(b.data_len(), 4);
}

#[test]
fn strings_are_read_as_utf8_with_replacement() {
    let mut b = ByteBuffer::new(b"DSDBxx\xffz".to_vec());
    assert_eq!(b.read_string(4), Ok("DSDB".to_string()));
    assert_eq!(b.read_string_ascii(2), Ok("xx".to_string()));
    assert_eq!(b.read_string(2), Ok("\u{fffd}z".to_string()));
    assert_eq!(b.read_string(1), Err(BufferError::UnexpectedEof));
}

#[test]
fn utf16_strings() {
    let mut b = ByteBuffer::new(vec![0, 0x68, 0, 0x69, 0xdc, 0]);
    assert_eq!(b.read_string_utf16_be(3), Err(BufferError::OddLength));
    assert_eq!(b.byte_offset(), 0);
    assert_eq!(b.read_string_utf16_be(4), Ok("hi".to_string()));
    assert_eq!(b.read_string_utf16_be(2), Err(BufferError::InvalidUtf16));
    b.reset();
    assert_eq!(b.read_string_utf16_be(8), Err(BufferError::UnexpectedEof));
}

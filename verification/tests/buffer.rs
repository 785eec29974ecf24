use radio_station::ringbuffer_sound::{RingBuffer, BUFFER_SIZE};
use radio_station::wav::wav_header;

#[test]
fn takes_come_out_in_put_order() {
    let mut b = RingBuffer::new();
    b.put(10);
    b.put(-20);
    b.put(30);
    assert_eq!(b.take(), 10);
    assert_eq!(b.take(), -20);
    assert_eq!(b.take(), 30);
}

#[test]
fn empty_buffer_yields_silence_and_stays_usable() {
    let mut b = RingBuffer::new();
    assert_eq!(b.take(), 0);
    assert_eq!(b.take(), 0);
    // draining an empty buffer was a no-op: a later put still comes out
    b.put(7);
    assert_eq!(b.take(), 7);
    assert_eq!(b.take(), 0);
}

#[test]
fn overflow_drops_the_oldest_samples() {
    // push BUFFER_SIZE + k samples into an empty buffer, then drain:
    // exactly the last BUFFER_SIZE pushed come out, oldest first
    let k = 5usize;
    let mut b = RingBuffer::new();
    for i in 0..(BUFFER_SIZE + k) {
        b.put((i % 30000) as i16);
    }
    for i in 0..BUFFER_SIZE {
        let expected = ((i + k) % 30000) as i16;
        assert_eq!(b.take(), expected, "sample {} after overflow", i);
    }
    // and then the buffer is empty again
    assert_eq!(b.take(), 0);
}

#[test]
fn filling_exactly_to_capacity_loses_nothing() {
    let mut b = RingBuffer::new();
    for i in 0..BUFFER_SIZE {
        b.put((i % 1000) as i16);
    }
    for i in 0..BUFFER_SIZE {
        assert_eq!(b.take(), (i % 1000) as i16);
    }
    assert_eq!(b.take(), 0);
}

#[test]
fn put_bytes_decodes_little_endian_samples() {
    let mut b = RingBuffer::new();
    let bytes: Vec<u8> = vec![0x01, 0x02, 0xFF, 0xFF, 0x00, 0x80];
    b.put_bytes(&bytes);
    assert_eq!(b.take(), 0x0201);
    assert_eq!(b.take(), -1);
    assert_eq!(b.take(), i16::MIN);
    assert_eq!(b.take(), 0);
}

#[test]
fn wav_header_for_the_station_format() {
    let header = wav_header(44100, 16, 1);
    let expected: [u8; 44] = [
        b'R', b'I', b'F', b'F', 0xFF, 0xFF, 0xFF, 0xFF, b'W', b'A', b'V', b'E', //
        b'f', b'm', b't', b' ', 16, 0, 0, 0, // PCM fmt chunk
        1, 0, // PCM
        1, 0, // one channel
        0x44, 0xAC, 0x00, 0x00, // 44100 Hz
        0x88, 0x58, 0x01, 0x00, // 88200 bytes per second
        2, 0, // block align
        16, 0, // bits per sample
        b'd', b'a', b't', b'a', 0xFF, 0xFF, 0xFF, 0xFF,
    ];
    assert_eq!(header, expected);
}

#[test]
fn wav_header_encodes_the_format_fields() {
    let header = wav_header(22050, 8, 2);
    // channels
    assert_eq!(&header[22..24], &[2, 0]);
    // sample rate 22050 = 0x5622
    assert_eq!(&header[24..28], &[0x22, 0x56, 0x00, 0x00]);
    // byte rate 22050 * 2 * 1 = 44100 = 0xAC44
    assert_eq!(&header[28..32], &[0x44, 0xAC, 0x00, 0x00]);
    // block align 2, bits 8
    assert_eq!(&header[32..34], &[2, 0]);
    assert_eq!(&header[34..36], &[8, 0]);
}

#[test]
fn interleaved_puts_and_takes_cross_the_wrap_point() {
    let mut b = RingBuffer::new();
    // bring the write cursor near the end of the arena, drain part of it,
    // then keep writing across the wrap point
    for i in 0..(BUFFER_SIZE - 1) {
        b.put(i as i16);
    }
    for i in 0..(BUFFER_SIZE / 2) {
        assert_eq!(b.take(), i as i16);
    }
    for i in 0..10 {
        b.put(-(i as i16) - 1);
    }
    for i in (BUFFER_SIZE / 2)..(BUFFER_SIZE - 1) {
        assert_eq!(b.take(), i as i16);
    }
    for i in 0..10 {
        assert_eq!(b.take(), -(i as i16) - 1);
    }
    assert_eq!(b.take(), 0);
}

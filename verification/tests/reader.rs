// Tests for the bit cursor: exact recovery of packed values, including
// reads that straddle the cached window boundary, the variable-length
// integer decoder, and the boundary behaviour of skips and reads.

use demodec::error::ParserError;
use demodec::reader::BitReader;
use demodec::utils::{angle_scaled_degrees, log2_of_x_plus_one};

/// Packs values LSB-first into a byte buffer, the same bit order the
/// reader consumes.
struct BitWriter {
    bytes: Vec<u8>,
    bit: usize,
}

impl BitWriter {
    fn new() -> BitWriter {
        BitWriter { bytes: Vec::new(), bit: 0 }
    }

    fn push_bits(&mut self, value: u64, n: usize) {
        for i in 0..n {
            if self.bit % 8 == 0 {
                self.bytes.push(0);
            }
            let b = ((value >> i) & 1) as u8;
            let idx = self.bit / 8;
            self.bytes[idx] |= b << (self.bit % 8);
            self.bit += 1;
        }
    }

    fn push_byte(&mut self, b: u8) {
        self.push_bits(b as u64, 8);
    }

    /// Pads with zero bytes so the buffer is at least `min` bytes long.
    fn finish(mut self, min: usize) -> Vec<u8> {
        while self.bytes.len() < min {
            self.bytes.push(0);
        }
        self.bytes
    }
}

#[test]
fn read_bits_recovers_packed_values_within_window() {
    // Widths summing to 64: all served from the first fetch window.
    let fields: Vec<(u64, usize)> = vec![
        (0b1, 1),
        (0b1010, 4),
        (0x5A, 8),
        (0x123, 12),
        (0x7FFF, 15),
        (0xABCDE, 24),
    ];
    let mut w = BitWriter::new();
    for &(v, n) in &fields {
        w.push_bits(v, n);
    }
    let buf = w.finish(16);
    let mut r = BitReader::new(&buf).unwrap();
    for &(v, n) in &fields {
        assert_eq!(r.read_bits(n).unwrap(), v);
    }
}

#[test]
fn read_bits_recovers_values_across_window_boundary() {
    // First read 60 bits, then a 16-bit value straddling the 64-bit
    // window boundary, then another refetch-aligned value.
    let mut w = BitWriter::new();
    w.push_bits(0x0FED_CBA9_8765_4321, 60);
    w.push_bits(0xBEEF, 16);
    w.push_bits(0x3FFFFFFF, 30);
    let buf = w.finish(16);
    let mut r = BitReader::new(&buf).unwrap();
    assert_eq!(r.read_bits(60).unwrap(), 0x0FED_CBA9_8765_4321);
    assert_eq!(r.read_bits(16).unwrap(), 0xBEEF);
    assert_eq!(r.read_bits(30).unwrap(), 0x3FFFFFFF);
}

#[test]
fn read_bits_full_width_at_window_edge() {
    let mut w = BitWriter::new();
    w.push_bits(u64::MAX - 12345, 64);
    w.push_bits(0x42, 8);
    let buf = w.finish(16);
    let mut r = BitReader::new(&buf).unwrap();
    assert_eq!(r.read_bits(64).unwrap(), u64::MAX - 12345);
    assert_eq!(r.read_bits(8).unwrap(), 0x42);
}

#[test]
fn read_bits_past_end_is_out_of_bounds() {
    let buf = vec![0u8; 8];
    let mut r = BitReader::new(&buf).unwrap();
    assert_eq!(r.read_bits(60).unwrap(), 0);
    assert_eq!(r.read_bits(5), Err(ParserError::ReaderOutOfBounds));
    // The failed read leaves the cursor unmoved.
    assert_eq!(r.read_bits(4).unwrap(), 0);
}

#[test]
fn new_rejects_buffers_shorter_than_the_window() {
    let buf = vec![1u8, 2, 3];
    assert!(matches!(BitReader::new(&buf), Err(ParserError::ReaderOutOfBounds)));
}

#[test]
fn skip_is_recoverable_at_the_end() {
    let buf = vec![0u8; 10];
    let mut r = BitReader::new(&buf).unwrap();
    assert!(r.skip(80).is_ok());
    assert_eq!(r.skip(1), Err(ParserError::ReaderOutOfBounds));
}

#[test]
fn read_var_int32_roundtrips_canonical_encodings() {
    // Canonical little-endian 7-bit-group encodings.
    let cases: Vec<(i32, Vec<u8>)> = vec![
        (0, vec![0x00]),
        (127, vec![0x7F]),
        (128, vec![0x80, 0x01]),
        (16384, vec![0x80, 0x80, 0x01]),
        (i32::MAX, vec![0xFF, 0xFF, 0xFF, 0xFF, 0x07]),
    ];
    for (expect, enc) in cases {
        let mut w = BitWriter::new();
        for b in &enc {
            w.push_byte(*b);
        }
        w.push_byte(0x55); // marker after the varint
        let buf = w.finish(16);
        let mut r = BitReader::new(&buf).unwrap();
        assert_eq!(r.read_var_int32().unwrap(), expect);
        // The decoder stopped exactly after the encoding.
        assert_eq!(r.read_bits(8).unwrap(), 0x55);
    }
}

#[test]
fn read_var_int32_unaligned() {
    let mut w = BitWriter::new();
    w.push_bits(0b101, 3);
    w.push_byte(0x80);
    w.push_byte(0x01);
    let buf = w.finish(16);
    let mut r = BitReader::new(&buf).unwrap();
    assert_eq!(r.read_bits(3).unwrap(), 0b101);
    assert_eq!(r.read_var_int32().unwrap(), 128);
}

#[test]
fn read_sint_sign_extends() {
    let mut w = BitWriter::new();
    w.push_bits(0b1111, 4); // -1 in 4 bits
    w.push_bits(0b0111, 4); // +7 in 4 bits
    w.push_bits(0x8000, 16); // -32768 in 16 bits
    let buf = w.finish(16);
    let mut r = BitReader::new(&buf).unwrap();
    assert_eq!(r.read_sint(4).unwrap(), -1);
    assert_eq!(r.read_sint(4).unwrap(), 7);
    assert_eq!(r.read_sint(16).unwrap(), -32768);
}

#[test]
fn read_int_and_short_reinterpret_without_sign_extension() {
    let mut w = BitWriter::new();
    w.push_bits(0xFFFF_FFFF, 32);
    w.push_bits(0xFFFF, 16);
    w.push_bits(0b1111, 4);
    let buf = w.finish(16);
    let mut r = BitReader::new(&buf).unwrap();
    assert_eq!(r.read_int(32).unwrap(), -1);
    assert_eq!(r.read_short(16).unwrap(), -1);
    // A 4-bit field is never negative without explicit sign extension.
    assert_eq!(r.read_int(4).unwrap(), 15);
}

#[test]
fn read_ascii_string_nulled_reads_until_zero() {
    let mut w = BitWriter::new();
    w.push_byte(b'A');
    w.push_byte(b'B');
    w.push_byte(0);
    w.push_byte(b'C');
    let buf = w.finish(16);
    let mut r = BitReader::new(&buf).unwrap();
    assert_eq!(r.read_ascii_string_nulled().unwrap(), "AB".to_string());
    // The terminator was consumed, the next byte was not.
    assert_eq!(r.read_bits(8).unwrap(), b'C' as u64);
}

#[test]
fn read_ascii_string_nulled_decodes_utf8() {
    // A two-byte UTF-8 character before the terminator decodes like any
    // other text.
    let mut w = BitWriter::new();
    w.push_byte(b'c');
    w.push_byte(0xC3);
    w.push_byte(0xA9);
    w.push_byte(0);
    let buf = w.finish(16);
    let mut r = BitReader::new(&buf).unwrap();
    assert_eq!(r.read_ascii_string_nulled().unwrap(), "c\u{e9}".to_string());
    assert_eq!(r.current, 32);
}

#[test]
fn read_ascii_string_nulled_rejects_malformed_utf8() {
    // A lone leading byte with no continuation byte is not UTF-8.
    let mut w = BitWriter::new();
    w.push_byte(b'A');
    w.push_byte(0xC3);
    w.push_byte(0);
    let buf = w.finish(16);
    let mut r = BitReader::new(&buf).unwrap();
    assert_eq!(r.read_ascii_string_nulled(), Err(ParserError::DecodeError));
}

#[test]
fn read_ascii_string_decodes_utf8_and_trims() {
    let mut w = BitWriter::new();
    w.push_byte(0xC3);
    w.push_byte(0xA9);
    w.push_byte(0);
    w.push_byte(0);
    let buf = w.finish(16);
    let mut r = BitReader::new(&buf).unwrap();
    assert_eq!(r.read_ascii_string(32).unwrap(), "\u{e9}".to_string());
    assert_eq!(r.current, 32);
}

#[test]
fn read_ascii_string_nulled_unterminated_is_out_of_bounds() {
    let buf = vec![b'X'; 8];
    let mut r = BitReader::new(&buf).unwrap();
    assert_eq!(r.read_ascii_string_nulled(), Err(ParserError::ReaderOutOfBounds));
}

#[test]
fn read_ascii_string_trims_trailing_padding_only() {
    let mut w = BitWriter::new();
    w.push_byte(b'h');
    w.push_byte(b'i');
    w.push_byte(0);
    w.push_byte(0);
    let buf = w.finish(16);
    let mut r = BitReader::new(&buf).unwrap();
    assert_eq!(r.read_ascii_string(32).unwrap(), "hi".to_string());
    assert_eq!(r.current, 32);
}

#[test]
fn read_bytes_is_bit_aligned() {
    let mut w = BitWriter::new();
    w.push_bits(0b1, 1);
    w.push_byte(0xAB);
    w.push_byte(0xCD);
    let buf = w.finish(16);
    let mut r = BitReader::new(&buf).unwrap();
    assert_eq!(r.read_bits(1).unwrap(), 1);
    assert_eq!(r.read_bytes(2).unwrap(), vec![0xAB, 0xCD]);
}

#[test]
fn split_and_skip_lands_exactly_after_the_region() {
    // The bounded-region containment guarantee: whatever the sub-cursor
    // does (here it under-reads, then over-reads), the parent lands
    // exactly the declared length further.
    let mut w = BitWriter::new();
    for i in 0..24 {
        w.push_byte(i as u8);
    }
    let buf = w.finish(24);
    let mut r = BitReader::new(&buf).unwrap();
    r.skip(8).unwrap();
    let region_start = r.current;
    let mut sub = r.split_and_skip(5 * 8).unwrap();
    assert_eq!(r.current, region_start + 40);
    // Under-read: the view consumes 3 bits only.
    sub.read_bits(3).unwrap();
    assert_eq!(r.current, region_start + 40);
    // Over-read: the view runs far past the declared region.
    sub.read_bits(64).unwrap();
    sub.read_bits(64).unwrap();
    assert_eq!(r.current, region_start + 40);
}

#[test]
fn log2_helper_values() {
    assert_eq!(log2_of_x_plus_one(1), 1);
    assert_eq!(log2_of_x_plus_one(255), 8);
    assert_eq!(log2_of_x_plus_one(256), 9);
    assert_eq!(log2_of_x_plus_one(2), 2);
    assert_eq!(log2_of_x_plus_one(0xFFFF_FFFF), 32);
}

#[test]
fn angle_conversion_is_exact() {
    // A raw 16-bit angle value of 16384 decodes to 90.0 degrees.
    assert_eq!(angle_scaled_degrees(16384), 5898240);
    assert_eq!(angle_scaled_degrees(16384) as f32 / 65536.0, 90.0);
    assert_eq!(angle_scaled_degrees(0), 0);
    assert_eq!(angle_scaled_degrees(-16384) as f32 / 65536.0, -90.0);
}

#[test]
fn read_vector_coord_parts() {
    let mut w = BitWriter::new();
    // integer present, fraction absent, sign set, integer part 100.
    w.push_bits(0b1, 1);
    w.push_bits(0b0, 1);
    w.push_bits(0b1, 1);
    w.push_bits(100, 14);
    let buf = w.finish(16);
    let mut r = BitReader::new(&buf).unwrap();
    let c = r.read_vector_coord().unwrap();
    assert!(c.has_integer);
    assert!(!c.has_fraction);
    assert!(c.sign);
    assert_eq!(c.int_bits, 100);
    assert_eq!(c.frac_bits, 0);
    assert_eq!(r.current, 17);
}

#[test]
fn read_vector_coords_absent_axes() {
    let mut w = BitWriter::new();
    w.push_bits(0b000, 3);
    let buf = w.finish(16);
    let mut r = BitReader::new(&buf).unwrap();
    let v = r.read_vector_coords().unwrap();
    assert_eq!(v.len(), 3);
    assert!(v[0].is_none() && v[1].is_none() && v[2].is_none());
    assert_eq!(r.current, 3);
}

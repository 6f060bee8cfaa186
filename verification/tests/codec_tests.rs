use bytebuffer::backend_mem::BackendMem;
use bytebuffer::buffer::{Backend, Buffer};
use num_bigint::{BigInt, BigUint};

fn pow2_big(n: u32) -> BigUint {
    BigUint::from(1u8) << n
}

#[test]
fn fresh_buffer_is_empty() {
    let mut b = Buffer::new();
    assert_eq!(b.size(), 0);
    assert_eq!(b.rpos(), 0);
    assert_eq!(b.wpos(), 0);
    assert_eq!(b.finish(), Vec::<u8>::new());
}

#[test]
fn write_then_read_returns_the_bytes() {
    let data: Vec<u8> = (0u8..=200).collect();
    let mut b = Buffer::new();
    assert_eq!(b.write(&data).unwrap(), 201);
    let mut out = vec![0u8; 201];
    assert_eq!(b.read(&mut out).unwrap(), 201);
    assert_eq!(out, data);
    assert_eq!(b.wpos(), 201);
    assert_eq!(b.rpos(), 201);
}

#[test]
fn write_cursor_ignores_reads() {
    let mut b = Buffer::new();
    let _ = b.write(&[1, 2, 3, 4, 5]);
    assert_eq!(b.read_u8(), 1);
    assert_eq!(b.wpos(), 5);
    assert_eq!(b.read_u16(), 0x0302);
    assert_eq!(b.wpos(), 5);
    let _ = b.write(&[6]);
    assert_eq!(b.wpos(), 6);
    assert_eq!(b.rpos(), 3);
    assert_eq!(b.finish(), vec![1, 2, 3, 4, 5, 6]);
}

#[test]
fn read_at_end_returns_nothing() {
    let mut b = Buffer::from_vec(vec![9, 8]);
    let mut out = [7u8; 4];
    assert_eq!(b.read(&mut out).unwrap(), 2);
    assert_eq!(out, [9, 8, 7, 7]);
    assert_eq!(b.read(&mut out).unwrap(), 0);
    assert_eq!(out, [9, 8, 7, 7]);
    assert_eq!(b.rpos(), 2);
    assert_eq!(b.read_u8(), 0);
    assert_eq!(b.rpos(), 2);
}

#[test]
fn from_vec_leaves_read_cursor_at_start() {
    let mut b = Buffer::from_vec(vec![5, 6, 7]);
    assert_eq!(b.rpos(), 0);
    assert_eq!(b.wpos(), 3);
    assert_eq!(b.size(), 3);
    assert_eq!(b.read_u8(), 5);
}

#[test]
fn finish_is_non_destructive() {
    let mut b = Buffer::from_vec(vec![1, 2, 3, 4]);
    assert_eq!(b.read_u8(), 1);
    let first = b.finish();
    assert_eq!(b.rpos(), 1);
    assert_eq!(b.wpos(), 4);
    let second = b.finish();
    assert_eq!(first, second);
    assert_eq!(first, vec![1, 2, 3, 4]);
    assert_eq!(b.read_u8(), 2);
    assert_eq!(b.finish(), vec![1, 2, 3, 4]);
    assert_eq!(b.rpos(), 2);
}

#[test]
fn flush_resets_to_fresh() {
    let mut b = Buffer::from_vec(vec![1, 2, 3, 4]);
    assert_eq!(b.read_u16(), 0x0201);
    assert!(b.flush().is_ok());
    assert_eq!(b.size(), 0);
    assert_eq!(b.rpos(), 0);
    assert_eq!(b.wpos(), 0);
    assert_eq!(b.finish(), Vec::<u8>::new());
    b.write_u16(0xBEEF);
    assert_eq!(b.finish(), vec![0xEF, 0xBE]);
    assert_eq!(b.read_u16(), 0xBEEF);
}

#[test]
fn seek_write_overwrites_in_place() {
    let mut b = Buffer::from_vec(vec![1, 2, 3, 4, 5]);
    b.seekw(1);
    let _ = b.write(&[9, 9]);
    assert_eq!(b.finish(), vec![1, 9, 9, 4, 5]);
    assert_eq!(b.wpos(), 3);
    assert_eq!(b.size(), 5);
}

#[test]
fn seek_write_at_end_extends() {
    let mut b = Buffer::from_vec(vec![1, 2, 3]);
    b.seekw(2);
    let _ = b.write(&[7, 8, 9]);
    assert_eq!(b.finish(), vec![1, 2, 7, 8, 9]);
    assert_eq!(b.wpos(), 5);
}

#[test]
fn seek_write_past_end_fills_with_zeros() {
    let mut b = Buffer::from_vec(vec![1, 2]);
    b.seekw(5);
    assert_eq!(b.size(), 2);
    let _ = b.write(&[]);
    assert_eq!(b.size(), 2);
    b.write_u8(7);
    assert_eq!(b.finish(), vec![1, 2, 0, 0, 0, 7]);
    assert_eq!(b.wpos(), 6);
}

#[test]
fn seek_read_past_end_reads_nothing() {
    let mut b = Buffer::from_vec(vec![1, 2, 3]);
    b.seekr(10);
    let mut out = [0u8; 2];
    assert_eq!(b.read(&mut out).unwrap(), 0);
    assert_eq!(b.rpos(), 10);
    b.seekr(1);
    assert_eq!(b.read_u8(), 2);
}

#[test]
fn backend_mem_through_the_trait() {
    let mut m = BackendMem::new();
    assert_eq!(m.write(&[1, 2, 3]).unwrap(), 3);
    assert_eq!(m.size(), 3);
    assert_eq!(m.wpos(), 3);
    assert_eq!(m.rpos(), 0);
    let mut out = [0u8; 2];
    assert_eq!(m.read(&mut out).unwrap(), 2);
    assert_eq!(out, [1, 2]);
    assert_eq!(m.rpos(), 2);
    m.close();
    assert_eq!(m.finish(), vec![1, 2, 3]);
    m.seekr(0);
    m.seekw(1);
    assert_eq!(m.rpos(), 0);
    assert_eq!(m.wpos(), 1);
    assert!(m.flush().is_ok());
    assert_eq!(m.size(), 0);
    assert_eq!(m.rpos(), 0);
    assert_eq!(m.wpos(), 0);
}

#[test]
fn from_backend_takes_the_backend_as_it_is() {
    let mut m = BackendMem::new();
    let _ = m.write(&[4, 5, 6]);
    m.seekr(1);
    let mut b = Buffer::from_backend(m);
    assert_eq!(b.size(), 3);
    assert_eq!(b.wpos(), 3);
    assert_eq!(b.read_u8(), 5);
}

#[test]
fn u8_round_trips() {
    for v in [0u8, 1, 0x7F, 0x80, 0xFF] {
        let mut b = Buffer::new();
        b.write_u8(v);
        assert_eq!(b.finish(), vec![v]);
        assert_eq!(b.read_u8(), v);
    }
}

#[test]
fn u16_wire_and_round_trip() {
    let mut b = Buffer::new();
    b.write_u16(0x1234);
    assert_eq!(b.finish(), vec![0x34, 0x12]);
    assert_eq!(b.read_u16(), 0x1234);
    for v in [0u16, 1, u16::MAX, 0x8000, 0x00FF, 0xFF00] {
        let mut b = Buffer::new();
        b.write_u16(v);
        assert_eq!(b.read_u16(), v);
    }
}

#[test]
fn u32_wire_and_round_trip() {
    let mut b = Buffer::new();
    b.write_u32(0x12345678);
    assert_eq!(b.finish(), vec![0x78, 0x56, 0x34, 0x12]);
    assert_eq!(b.read_u32(), 0x12345678);
    for v in [0u32, 1, u32::MAX, 0x8000_0000, 0x7FFF_FFFF] {
        let mut b = Buffer::new();
        b.write_u32(v);
        assert_eq!(b.read_u32(), v);
    }
}

#[test]
fn u64_wire_and_round_trip() {
    let mut b = Buffer::new();
    b.write_u64(0x0102030405060708);
    assert_eq!(b.finish(), vec![8, 7, 6, 5, 4, 3, 2, 1]);
    assert_eq!(b.read_u64(), 0x0102030405060708);
    for v in [0u64, 1, u64::MAX, 1 << 63, (1 << 63) - 1] {
        let mut b = Buffer::new();
        b.write_u64(v);
        assert_eq!(b.read_u64(), v);
    }
}

#[test]
fn i16_wire_and_round_trip() {
    let mut b = Buffer::new();
    b.write_i16(-2);
    assert_eq!(b.finish(), vec![0xFE, 0xFF]);
    assert_eq!(b.read_i16(), -2);
    for v in [0i16, 1, -1, i16::MIN, i16::MAX, 0x1234, -0x1234] {
        let mut b = Buffer::new();
        b.write_i16(v);
        assert_eq!(b.read_i16(), v);
    }
}

#[test]
fn i32_wire_and_round_trip() {
    let mut b = Buffer::new();
    b.write_i32(-2);
    assert_eq!(b.finish(), vec![0xFE, 0xFF, 0xFF, 0xFF]);
    assert_eq!(b.read_i32(), -2);
    for v in [0i32, 1, -1, i32::MIN, i32::MAX, 0x12345678, -0x12345678] {
        let mut b = Buffer::new();
        b.write_i32(v);
        assert_eq!(b.read_i32(), v);
    }
}

#[test]
fn i64_wire_and_round_trip() {
    let mut b = Buffer::new();
    b.write_i64(-0x0102030405060708);
    assert_eq!(b.finish(), vec![0xF8, 0xF8, 0xF9, 0xFA, 0xFB, 0xFC, 0xFD, 0xFE]);
    assert_eq!(b.read_i64(), -0x0102030405060708);
    for v in [0i64, 1, -1, i64::MIN, i64::MAX] {
        let mut b = Buffer::new();
        b.write_i64(v);
        assert_eq!(b.read_i64(), v);
    }
}

#[test]
fn short_fixed_width_read_counts_missing_bytes_as_zero() {
    let mut b = Buffer::from_vec(vec![0x11, 0x22, 0x33]);
    assert_eq!(b.read_u64(), 0x332211);
    assert_eq!(b.rpos(), 3);
    assert_eq!(b.read_u32(), 0);
    assert_eq!(b.rpos(), 3);
    let mut b = Buffer::from_vec(vec![0xFF]);
    assert_eq!(b.read_i16(), 0xFF);
    let mut b = Buffer::from_vec(vec![0x01, 0x02, 0x83]);
    assert_eq!(b.read_i32(), 0x830201);
}

#[test]
fn float_bits_round_trip() {
    let ff32: f32 = 12323.34434123;
    let ff64: f64 = 56565.434123123;
    let mut b = Buffer::new();
    b.write_u32(ff32.to_bits());
    b.write_u64(ff64.to_bits());
    assert_eq!(b.size(), 12);
    assert_eq!(f32::from_bits(b.read_u32()).to_bits(), ff32.to_bits());
    assert_eq!(f64::from_bits(b.read_u64()).to_bits(), ff64.to_bits());
}

#[test]
fn bool_wire_and_round_trip() {
    let mut b = Buffer::new();
    b.write_bool(true);
    b.write_bool(false);
    assert_eq!(b.finish(), vec![1, 0]);
    assert!(b.read_bool());
    assert!(!b.read_bool());
}

#[test]
fn bool_decoder_takes_any_byte_but_one_as_false() {
    let mut b = Buffer::from_vec(vec![2, 0xFF, 1, 0]);
    assert!(!b.read_bool());
    assert!(!b.read_bool());
    assert!(b.read_bool());
    assert!(!b.read_bool());
    assert!(!b.read_bool());
    assert_eq!(b.rpos(), 4);
}

#[test]
fn uleb_vectors() {
    let cases: Vec<(u64, Vec<u8>)> = vec![
        (0, vec![0x00]),
        (1, vec![0x01]),
        (127, vec![0x7F]),
        (128, vec![0x80, 0x01]),
        (129, vec![0x81, 0x01]),
        (16383, vec![0xFF, 0x7F]),
        (16384, vec![0x80, 0x80, 0x01]),
        (624485, vec![0xE5, 0x8E, 0x26]),
        (6545, vec![0x91, 0x33]),
        (4233260, vec![0xAC, 0xB0, 0x82, 0x02]),
        (812301234, vec![0xB2, 0xF7, 0xAA, 0x83, 0x03]),
        (u64::MAX, vec![0xFF, 0xFF, 0xFF, 0xFF, 0xFF, 0xFF, 0xFF, 0xFF, 0xFF, 0x01]),
    ];
    for (v, bytes) in cases {
        let mut b = Buffer::new();
        b.write_u(v);
        assert_eq!(b.finish(), bytes);
        assert_eq!(b.read_u(), v);
        assert_eq!(b.rpos(), b.wpos());
    }
}

#[test]
fn sleb_vectors() {
    let cases: Vec<(i64, Vec<u8>)> = vec![
        (0, vec![0x00]),
        (-1, vec![0x7F]),
        (63, vec![0x3F]),
        (64, vec![0xC0, 0x00]),
        (-64, vec![0x40]),
        (-65, vec![0xBF, 0x7F]),
        (128, vec![0x80, 0x01]),
        (6545, vec![0x91, 0x33]),
        (-1212312, vec![0xE8, 0x80, 0xB6, 0x7F]),
        (
            4784583489573475384,
            vec![0xB8, 0xA8, 0xE7, 0xF1, 0xD7, 0xAA, 0x90, 0xB3, 0xC2, 0x00],
        ),
        (i64::MAX, vec![0xFF, 0xFF, 0xFF, 0xFF, 0xFF, 0xFF, 0xFF, 0xFF, 0xFF, 0x00]),
        (i64::MIN, vec![0x80, 0x80, 0x80, 0x80, 0x80, 0x80, 0x80, 0x80, 0x80, 0x7F]),
    ];
    for (v, bytes) in cases {
        let mut b = Buffer::new();
        b.write_i(v);
        assert_eq!(b.finish(), bytes);
        assert_eq!(b.read_i(), v);
        assert_eq!(b.rpos(), b.wpos());
    }
}

#[test]
fn uleb_only_the_last_byte_has_the_continuation_bit_clear() {
    for v in [0u64, 1, 127, 128, 255, 256, 16383, 16384, 1 << 21, 1 << 35, 1 << 63, u64::MAX] {
        let mut b = Buffer::new();
        b.write_u(v);
        let bytes = b.finish();
        let (last, front) = bytes.split_last().unwrap();
        assert!(*last < 0x80);
        assert!(front.iter().all(|byte| *byte >= 0x80));
        assert_eq!(b.read_u(), v);
        assert_eq!(b.rpos(), b.wpos());
    }
}

#[test]
fn ubig_wider_than_a_register_round_trips() {
    let v = pow2_big(100) + BigUint::from(5u8);
    let mut b = Buffer::new();
    b.write_ubig(v.clone());
    let mut expected = vec![0x85u8];
    expected.extend(std::iter::repeat(0x80u8).take(13));
    expected.push(0x04);
    assert_eq!(b.finish(), expected);
    assert_eq!(b.read_ubig(0), v);
    assert_eq!(b.rpos(), 15);
}

#[test]
fn ibig_wider_than_a_register_round_trips() {
    let v = -(BigInt::from(1) << 100u32) - BigInt::from(3);
    let mut b = Buffer::new();
    b.write_ibig(v.clone());
    let mut expected = vec![0xFDu8];
    expected.extend(std::iter::repeat(0xFFu8).take(13));
    expected.push(0x7B);
    assert_eq!(b.finish(), expected);
    assert_eq!(b.read_ibig(0), v);
    let w = (BigInt::from(1) << 100u32) + BigInt::from(3);
    let mut b = Buffer::new();
    b.write_ibig(w.clone());
    assert_eq!(b.read_ibig(64), w);
}

#[test]
fn ibig_negative_of_more_than_four_bytes_is_sign_extended() {
    let v = BigInt::from(-1_000_000_000_000i64);
    let mut b = Buffer::new();
    b.write_ibig(v.clone());
    assert_eq!(b.size(), 6);
    assert_eq!(b.read_ibig(0), v);
}

#[test]
fn read_u_cuts_to_64_bits() {
    let v = pow2_big(70) + BigUint::from(3u8);
    let mut b = Buffer::new();
    b.write_ubig(v);
    assert_eq!(b.size(), 11);
    assert_eq!(b.read_u(), 3);
    assert_eq!(b.rpos(), 11);
}

#[test]
fn read_i_cuts_to_64_bits() {
    let v = (BigInt::from(1) << 70u32) - BigInt::from(3);
    let mut b = Buffer::new();
    b.write_ibig(v);
    assert_eq!(b.read_i(), -3);
    let v = -(BigInt::from(1) << 70u32) + BigInt::from(3);
    let mut b = Buffer::new();
    b.write_ibig(v);
    assert_eq!(b.read_i(), 3);
}

#[test]
fn ubig_limit_exceeded_gives_zero() {
    let mut b = Buffer::from_vec(vec![0xFF; 30]);
    assert_eq!(b.read_ubig(5), BigUint::from(0u8));
    assert_eq!(b.rpos(), 6);
}

#[test]
fn ubig_limit_admits_that_many_bytes() {
    let mut b = Buffer::from_vec(vec![0x81, 0x81, 0x81, 0x01, 0x55]);
    assert_eq!(b.read_ubig(4), BigUint::from(0x204081u32));
    assert_eq!(b.rpos(), 4);
    let mut b = Buffer::from_vec(vec![0x81, 0x81, 0x81, 0x01, 0x55]);
    assert_eq!(b.read_ubig(3), BigUint::from(0u8));
    assert_eq!(b.rpos(), 4);
    let mut b = Buffer::from_vec(vec![0x05, 0x55]);
    assert_eq!(b.read_ubig(1), BigUint::from(5u8));
    assert_eq!(b.rpos(), 1);
}

#[test]
fn limit_is_the_same_for_unsigned_and_signed() {
    for limit in 1..8 {
        for len in 1..8usize {
            let mut bytes = vec![0x81u8; len - 1];
            bytes.push(0x01);
            bytes.push(0x55);
            let mut u = Buffer::from_vec(bytes.clone());
            let mut i = Buffer::from_vec(bytes);
            let unsigned = u.read_ubig(limit);
            let signed = i.read_ibig(limit);
            assert_eq!(BigInt::from(unsigned.clone()), signed);
            assert_eq!(u.rpos(), i.rpos());
            if len as i32 > limit {
                assert_eq!(unsigned, BigUint::from(0u8));
                assert_eq!(u.rpos(), limit as i64 + 1);
            } else {
                assert!(unsigned > BigUint::from(0u8));
                assert_eq!(u.rpos(), len as i64);
            }
        }
    }
}

#[test]
fn ibig_limit_exceeded_gives_zero() {
    let mut b = Buffer::from_vec(vec![0xFF; 30]);
    assert_eq!(b.read_ibig(5), BigInt::from(0));
    assert_eq!(b.rpos(), 6);
}

#[test]
fn ibig_limit_admits_that_many_bytes() {
    let mut b = Buffer::from_vec(vec![0x81, 0x81, 0x81, 0x01, 0x55]);
    assert_eq!(b.read_ibig(4), BigInt::from(0x204081));
    assert_eq!(b.rpos(), 4);
    let mut b = Buffer::from_vec(vec![0x81, 0x81, 0x81, 0x01, 0x55]);
    assert_eq!(b.read_ibig(3), BigInt::from(0));
    assert_eq!(b.rpos(), 4);
}

#[test]
fn default_limit_is_twenty() {
    let mut b = Buffer::from_vec(vec![0x80; 40]);
    assert_eq!(b.read_u(), 0);
    assert_eq!(b.rpos(), 21);
    let mut b = Buffer::from_vec(vec![0x80; 40]);
    assert_eq!(b.read_i(), 0);
    assert_eq!(b.rpos(), 21);
    // Twenty bytes are within the limit, twenty-one are not.
    let mut twenty = vec![0x80u8; 19];
    twenty.push(0x00);
    twenty[0] = 0x85;
    let mut b = Buffer::from_vec(twenty.clone());
    assert_eq!(b.read_u(), 5);
    assert_eq!(b.rpos(), 20);
    let mut b = Buffer::from_vec(twenty);
    assert_eq!(b.read_i(), 5);
    assert_eq!(b.rpos(), 20);
    let mut twenty_one = vec![0x80u8; 20];
    twenty_one.push(0x00);
    twenty_one[0] = 0x85;
    let mut b = Buffer::from_vec(twenty_one.clone());
    assert_eq!(b.read_u(), 0);
    assert_eq!(b.rpos(), 21);
    let mut b = Buffer::from_vec(twenty_one);
    assert_eq!(b.read_i(), 0);
    assert_eq!(b.rpos(), 21);
}

#[test]
fn unlimited_read_stops_at_the_end_of_the_content() {
    let mut b = Buffer::from_vec(vec![0x81; 40]);
    let v = b.read_ubig(0);
    assert_eq!(b.rpos(), 40);
    let mut expected = BigUint::from(0u8);
    for i in 0..40u32 {
        expected |= BigUint::from(1u8) << (7 * i);
    }
    assert_eq!(v, expected);
    let mut b = Buffer::from_vec(vec![0x81; 40]);
    let v = b.read_ibig(-1);
    assert_eq!(b.rpos(), 40);
    assert_eq!(v, BigInt::from(expected));
}

#[test]
fn varint_read_from_empty_buffer_is_zero() {
    let mut b = Buffer::new();
    assert_eq!(b.read_u(), 0);
    assert_eq!(b.read_i(), 0);
    assert_eq!(b.read_ubig(0), BigUint::from(0u8));
    assert_eq!(b.read_ibig(0), BigInt::from(0));
    assert_eq!(b.rpos(), 0);
}

#[test]
fn string_wire_format() {
    let mut b = Buffer::new();
    b.write_string(String::from("hé"));
    assert_eq!(b.finish(), vec![3, b'h', 0xC3, 0xA9]);
    assert_eq!(b.read_string(), "hé");
    let mut b = Buffer::new();
    b.write_cstring(String::from("hé"));
    assert_eq!(b.finish(), vec![b'h', 0xC3, 0xA9, 0]);
    assert_eq!(b.read_cstring(), "hé");
    assert_eq!(b.rpos(), 4);
}

#[test]
fn empty_strings_round_trip() {
    let mut b = Buffer::new();
    b.write_string(String::new());
    assert_eq!(b.finish(), vec![0]);
    assert_eq!(b.read_string(), "");
    b.write_cstring(String::new());
    assert_eq!(b.finish(), vec![0, 0]);
    assert_eq!(b.read_cstring(), "");
    assert_eq!(b.rpos(), 2);
}

#[test]
fn strings_of_every_length_around_a_prefix_boundary_round_trip() {
    for len in [126usize, 127, 128, 129, 255, 256, 16383, 16384, 16385] {
        let s: String = std::iter::repeat('a').take(len).collect();
        let mut b = Buffer::new();
        b.write_string(s.clone());
        assert_eq!(b.read_string(), s);
        assert_eq!(b.rpos(), b.wpos());
        b.write_cstring(s.clone());
        assert_eq!(b.read_cstring(), s);
        assert_eq!(b.rpos(), b.wpos());
    }
}

#[test]
fn string_with_nul_round_trips_behind_a_length() {
    let s = String::from("a\0b");
    let mut b = Buffer::new();
    b.write_string(s.clone());
    assert_eq!(b.finish(), vec![3, b'a', 0, b'b']);
    assert_eq!(b.read_string(), s);
}

#[test]
fn long_string_round_trips() {
    let s: String = std::iter::repeat("äb").take(100).collect();
    assert_eq!(s.len(), 300);
    let mut b = Buffer::new();
    b.write_string(s.clone());
    assert_eq!(b.size(), 302);
    assert_eq!(b.read_string(), s);
    b.write_cstring(s.clone());
    assert_eq!(b.read_cstring(), s);
    assert_eq!(b.rpos(), b.wpos());
}

#[test]
fn short_string_body_is_padded_with_nul() {
    let mut b = Buffer::from_vec(vec![4, b'a', b'b']);
    assert_eq!(b.read_string(), "ab\0\0");
    assert_eq!(b.rpos(), 3);
}

#[test]
fn cstring_without_terminator_ends_with_the_content() {
    let mut b = Buffer::from_vec(vec![b'a', b'b']);
    assert_eq!(b.read_cstring(), "ab");
    assert_eq!(b.rpos(), 2);
}

#[test]
fn mixed_sequence_round_trips() {
    let mut b = Buffer::new();
    b.write_u8(0xAB);
    b.write_i16(-12345);
    b.write_u(300);
    b.write_string(String::from("mixed"));
    b.write_bool(true);
    b.write_i(-300);
    b.write_cstring(String::from("end"));
    b.write_u64(u64::MAX - 1);
    assert_eq!(b.read_u8(), 0xAB);
    assert_eq!(b.read_i16(), -12345);
    assert_eq!(b.read_u(), 300);
    assert_eq!(b.read_string(), "mixed");
    assert!(b.read_bool());
    assert_eq!(b.read_i(), -300);
    assert_eq!(b.read_cstring(), "end");
    assert_eq!(b.read_u64(), u64::MAX - 1);
    assert_eq!(b.rpos(), b.wpos());
}

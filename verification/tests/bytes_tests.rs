use pngme::bytes::{append_bytes, same_bytes, u32_from_be, u32_to_be};
use pngme::text::{byte_list, decimal};

#[test]
fn u32_to_be_puts_the_high_byte_first() {
    assert_eq!(u32_to_be(0), [0, 0, 0, 0]);
    assert_eq!(u32_to_be(42), [0, 0, 0, 42]);
    assert_eq!(u32_to_be(0x0102_0304), [1, 2, 3, 4]);
    assert_eq!(u32_to_be(2882656334), 2882656334u32.to_be_bytes());
    assert_eq!(u32_to_be(u32::MAX), [255, 255, 255, 255]);
}

#[test]
fn u32_from_be_reads_at_an_offset() {
    let bytes = [9u8, 1, 2, 3, 4, 9];
    assert_eq!(u32_from_be(&bytes, 1), 0x0102_0304);
    assert_eq!(u32_from_be(&bytes, 0), 0x0901_0203);
    assert_eq!(u32_from_be(&[255, 255, 255, 255], 0), u32::MAX);
    assert_eq!(u32_from_be(&u32_to_be(2882656333), 0), 2882656333);
}

#[test]
fn append_bytes_adds_behind() {
    let mut out = vec![1u8, 2];
    append_bytes(&mut out, &[3, 4, 5]);
    assert_eq!(out, vec![1, 2, 3, 4, 5]);
    append_bytes(&mut out, &[]);
    assert_eq!(out, vec![1, 2, 3, 4, 5]);
}

#[test]
fn same_bytes_compares_length_and_content() {
    assert!(same_bytes(&[], &[]));
    assert!(same_bytes(&[1, 2, 3], &[1, 2, 3]));
    assert!(!same_bytes(&[1, 2, 3], &[1, 2, 4]));
    assert!(!same_bytes(&[1, 2, 3], &[1, 2]));
    assert!(!same_bytes(&[1, 2], &[1, 2, 3]));
}

#[test]
fn decimal_writes_a_number_as_std_does() {
    for n in [0u32, 1, 9, 10, 11, 99, 100, 101, 255, 1000, 2882656334, u32::MAX] {
        assert_eq!(decimal(n), format!("{}", n));
    }
    assert_eq!(decimal(4294967295), "4294967295");
}

#[test]
fn byte_list_writes_a_list_as_std_does() {
    assert_eq!(byte_list(&[]), "[]");
    assert_eq!(byte_list(&[7]), "[7]");
    assert_eq!(byte_list(&[0, 10, 255]), "[0, 10, 255]");
    let all: Vec<u8> = (0..=255).collect();
    assert_eq!(byte_list(&all), format!("{:?}", all));
}

use rust_bitset::{BitSet, BitSetError};

fn make(size: usize) -> BitSet {
    BitSet::new(size).unwrap()
}

#[test]
fn size_zero_is_refused() {
    assert_eq!(BitSet::new(0).err(), Some(BitSetError::InvalidArgument));
}

#[test]
fn new_set_is_all_clear() {
    for size in [1usize, 7, 8, 9, 64, 100] {
        let b = make(size);
        assert_eq!(b.len(), size);
        for i in 0..size {
            assert_eq!(b.get(i as isize), Ok(false));
        }
        assert_eq!(b.blocks(), vec![0u8; (size - 1) / 8 + 1]);
        assert!(b.elements().is_empty());
    }
}

#[test]
fn write_then_read_touches_one_bit() {
    let mut b = make(20);
    b.set(5, true).unwrap();
    b.set(13, true).unwrap();
    for v in [true, false, true] {
        b.set(9, v).unwrap();
        assert_eq!(b.get(9), Ok(v));
        for j in 0..20isize {
            if j != 9 {
                assert_eq!(b.get(j), Ok(j == 5 || j == 13));
            }
        }
    }
    b.set(5, false).unwrap();
    assert_eq!(b.get(5), Ok(false));
    assert_eq!(b.elements(), vec![9, 13]);
}

#[test]
fn setting_twice_is_setting_once() {
    let mut once = make(12);
    once.set(4, true).unwrap();
    let mut twice = make(12);
    twice.set(4, true).unwrap();
    twice.set(4, true).unwrap();
    assert_eq!(once.blocks(), twice.blocks());
    assert_eq!(once.elements(), twice.elements());
}

#[test]
fn negative_indices_count_from_the_end() {
    let mut b = make(10);
    b.set(-1, true).unwrap();
    assert_eq!(b.get(9), Ok(true));
    b.set(-10, true).unwrap();
    assert_eq!(b.get(0), Ok(true));
    for i in 0..10isize {
        assert_eq!(b.get(i), b.get(i - 10));
    }
    let mut c = make(10);
    c.set(3 - 10, true).unwrap();
    let mut d = make(10);
    d.set(3, true).unwrap();
    assert_eq!(c.blocks(), d.blocks());
}

#[test]
fn indices_past_either_end_are_refused() {
    let mut b = make(10);
    let past = BitSetError::IndexOutOfRange { size: 10, index: 10 };
    assert_eq!(b.get(10), Err(past));
    assert_eq!(b.set(10, true), Err(past));
    let below = BitSetError::IndexOutOfRange { size: 10, index: -11 };
    assert_eq!(b.get(-11), Err(below));
    assert_eq!(b.set(-11, true), Err(below));
    assert_eq!(
        b.get(isize::MIN),
        Err(BitSetError::IndexOutOfRange { size: 10, index: isize::MIN })
    );
    assert_eq!(b.get(isize::MAX).is_err(), true);
    assert!(b.elements().is_empty());
    assert_eq!(b.blocks(), vec![0, 0]);
}

#[test]
fn contains_is_false_out_of_range() {
    let mut b = make(10);
    b.set(9, true).unwrap();
    assert!(b.contains(9));
    assert!(!b.contains(8));
    assert!(!b.contains(10));
    assert!(!b.contains(usize::MAX));
}

#[test]
fn length_never_changes() {
    let mut b = make(17);
    assert_eq!(b.len(), 17);
    b.set(16, true).unwrap();
    let _ = b.set(17, true);
    b.set(-1, false).unwrap();
    assert_eq!(b.len(), 17);
}

#[test]
fn elements_match_reads() {
    let mut b = make(30);
    for i in [2isize, 3, 11, 29, 17] {
        b.set(i, true).unwrap();
    }
    let listed = b.elements();
    let read: Vec<usize> = (0..30).filter(|&i| b.get(i as isize) == Ok(true)).collect();
    assert_eq!(listed, read);
    assert_eq!(b.repr(), "[2, 3, 11, 17, 29]");
}

#[test]
fn chosen_positions_come_back() {
    let chosen = [40usize, 0, 77, 8, 63, 40, 99];
    let mut b = make(100);
    for &i in chosen.iter() {
        b.set(i as isize, true).unwrap();
    }
    let mut expected: Vec<usize> = chosen.to_vec();
    expected.sort();
    expected.dedup();
    assert_eq!(b.elements(), expected);
}

#[test]
fn ten_bits_with_three_set() {
    let mut b = make(10);
    for i in [0isize, 3, 7] {
        b.set(i, true).unwrap();
    }
    assert_eq!(b.elements(), vec![0, 3, 7]);
    assert_eq!(b.repr(), "[0, 3, 7]");
    assert_eq!(b.blocks(), vec![137u8, 0]);
}

#[test]
fn blocks_follow_bit_positions() {
    let mut b = make(16);
    b.set(8, true).unwrap();
    b.set(15, true).unwrap();
    b.set(1, true).unwrap();
    assert_eq!(b.blocks(), vec![0b0000_0010u8, 0b1000_0001]);
    let mut one = make(1);
    one.set(0, true).unwrap();
    assert_eq!(one.blocks(), vec![1u8]);
}

#[test]
fn repr_of_empty_and_wide_numbers() {
    let mut b = make(2000);
    assert_eq!(b.repr(), "[]");
    b.set(1234, true).unwrap();
    assert_eq!(b.repr(), "[1234]");
    b.set(10, true).unwrap();
    assert_eq!(b.repr(), "[10, 1234]");
}

#[test]
fn error_messages() {
    assert_eq!(BitSetError::InvalidArgument.message(), "size cannot be zero");
    let b = make(10);
    assert_eq!(
        b.get(12).unwrap_err().message(),
        "index can be between 0 and 9, found 12"
    );
    assert_eq!(
        b.get(-25).unwrap_err().message(),
        "index can be between 0 and 9, found -25"
    );
}

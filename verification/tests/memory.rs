use psutil::{Constants, Error, Memory};

fn constants(page_size: i64) -> Constants {
    Constants::new(100, page_size).unwrap()
}

#[test]
fn pages_become_bytes() {
    let m = Memory::new("10 5 2 1 0 3 0\n", &constants(4096)).unwrap();
    assert_eq!(m.size, 40960);
    assert_eq!(m.resident, 20480);
    assert_eq!(m.share, 8192);
    assert_eq!(m.text, 4096);
    assert_eq!(m.data, 12288);
}

#[test]
fn data_wraps_at_64_bits() {
    let m = Memory::new("10 5 2 1 0 99999999999999999999", &constants(4096)).unwrap();
    assert_eq!(m.size, 40960);
    assert_eq!(m.resident, 20480);
    assert_eq!(m.share, 8192);
    assert_eq!(m.text, 4096);
    assert_eq!(m.data, 8494587353115914240);
    assert_eq!(m.data, 7766279631452241919u64.wrapping_mul(4096));
    assert_ne!(m.data as u128, 99999999999999999999u128 * 4096);
}

#[test]
fn data_wraps_in_the_product_too() {
    let m = Memory::new("0 0 0 0 0 18446744073709551615\n", &constants(4096)).unwrap();
    assert_eq!(m.data, u64::MAX.wrapping_mul(4096));
    assert_eq!(m.data, 18446744073709547520);
}

#[test]
fn six_fields_are_enough() {
    let m = Memory::new("1 2 3 4 5 6", &constants(1)).unwrap();
    assert_eq!(m, Memory { size: 1, resident: 2, share: 3, text: 4, data: 6 });
    let m = Memory::new("1 2 3 4 5 6 7 8 9\n", &constants(2)).unwrap();
    assert_eq!(m, Memory { size: 2, resident: 4, share: 6, text: 8, data: 12 });
}

#[test]
fn fewer_than_six_fields_are_refused() {
    let c = constants(4096);
    assert_eq!(Memory::new("", &c), Err(Error::Structure));
    assert_eq!(Memory::new("\n", &c), Err(Error::Structure));
    assert_eq!(Memory::new("1 2 3 4 5", &c), Err(Error::Structure));
    assert_eq!(Memory::new("1 2 3 4 5\n", &c), Err(Error::Structure));
    assert_eq!(Memory::new("x y z", &c), Err(Error::Structure));
}

#[test]
fn a_bad_field_is_named() {
    let c = constants(4096);
    assert_eq!(Memory::new("x 5 2 1 0 3 0", &c), Err(Error::Parse { field: 0 }));
    assert_eq!(Memory::new("10 -5 2 1 0 3 0", &c), Err(Error::Parse { field: 1 }));
    assert_eq!(Memory::new("10 5 2.0 1 0 3 0", &c), Err(Error::Parse { field: 2 }));
    assert_eq!(Memory::new("10 5 2  0 3 0", &c), Err(Error::Parse { field: 3 }));
    assert_eq!(Memory::new("10 5 2 1 lib 3 0", &c), Err(Error::Parse { field: 4 }));
    assert_eq!(Memory::new("10 5 2 1 0 -3 0", &c), Err(Error::Parse { field: 5 }));
    assert_eq!(Memory::new("10 5 2 1 0 3 z", &c), Err(Error::Parse { field: 6 }));
    assert_eq!(Memory::new("10 5 2 1 0 3 0 \n", &c), Err(Error::Parse { field: 7 }));
    assert_eq!(Memory::new("10 5 2 1 0 3 0\n\n", &c), Err(Error::Parse { field: 6 }));
    assert_eq!(Memory::new("a b c d e f", &c), Err(Error::Parse { field: 0 }));
}

#[test]
fn the_first_four_sizes_must_fit() {
    let c = constants(4096);
    assert_eq!(
        Memory::new("4503599627370495 0 0 0 0 0", &c).unwrap().size,
        18446744073709547520
    );
    assert_eq!(Memory::new("4503599627370496 0 0 0 0 0", &c), Err(Error::Parse { field: 0 }));
    assert_eq!(Memory::new("0 4503599627370496 0 0 0 0", &c), Err(Error::Parse { field: 1 }));
    assert_eq!(Memory::new("0 0 4503599627370496 0 0 0", &c), Err(Error::Parse { field: 2 }));
    assert_eq!(Memory::new("0 0 0 4503599627370496 0 0", &c), Err(Error::Parse { field: 3 }));
    assert_eq!(
        Memory::new("0 0 0 99999999999999999999 0 0", &c),
        Err(Error::Parse { field: 3 })
    );
    let m = Memory::new("0 0 0 0 99999999999999999999 4503599627370496", &c).unwrap();
    assert_eq!(m.data, 0);
}

#[test]
fn memory_of_a_process_is_decoded_anew() {
    let c = Constants::new(100, 4096).unwrap();
    let stat = format!("7 (x) R{}", " 0".repeat(49));
    let p = psutil::Process::new(&stat, 0, 0, &c).unwrap();
    assert_eq!(p.memory("1 1 1 1 1 1", &c).unwrap().size, 4096);
    assert_eq!(p.memory("2 1 1 1 1 1", &c).unwrap().size, 8192);
    assert_eq!(p.memory("2 1 1 1 1", &c), Err(Error::Structure));
}

#[test]
fn sizes_are_whole_pages() {
    for page in [1i64, 4096, 16384, 65536] {
        let m = Memory::new("123 45 6 7 0 89 0\n", &constants(page)).unwrap();
        for size in [m.size, m.resident, m.share, m.text, m.data] {
            assert_eq!(size % page as u64, 0);
        }
        assert_eq!(m.size, 123 * page as u64);
    }
}

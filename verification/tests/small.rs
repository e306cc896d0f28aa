use sysprog::arguments::sort_arguments;
use sysprog::hello::print_main;
use sysprog::records::{make_record, RECORD_SIZE};
use sysprog::unsigned::{add_u8_checked, add_u8_saturating, add_u8_wrapping};

#[test]
fn t01_hello_world_print_str() {
    assert_eq!(print_main(), "Hello, world!");
}

#[test]
fn overflow_checked() {
    assert_eq!(add_u8_checked(10, 20), Some(30));
    assert_eq!(add_u8_checked(255, 1), None);

    assert_eq!(add_u8_wrapping(10, 20), 30);
    assert_eq!(add_u8_wrapping(255, 1), 0);

    assert_eq!(add_u8_saturating(10, 20), 30);
    assert_eq!(add_u8_saturating(255, 1), 255);
}

#[test]
fn additions_at_the_boundary() {
    assert_eq!(add_u8_checked(200, 55), Some(255));
    assert_eq!(add_u8_checked(200, 56), None);
    assert_eq!(add_u8_wrapping(200, 55), 255);
    assert_eq!(add_u8_wrapping(200, 100), 0);
    assert_eq!(add_u8_saturating(200, 100), 200);
    assert_eq!(add_u8_saturating(100, 200), 200);
    assert_eq!(add_u8_saturating(128, 128), 128);
}

#[test]
fn additions_commute_and_agree() {
    for a in 0u8..=255 {
        for b in [0u8, 1, 7, 100, 128, 155, 156, 254, 255] {
            assert_eq!(add_u8_checked(a, b), add_u8_checked(b, a));
            assert_eq!(add_u8_wrapping(a, b), add_u8_wrapping(b, a));
            assert_eq!(add_u8_saturating(a, b), add_u8_saturating(b, a));
            match add_u8_checked(a, b) {
                Some(s) => {
                    assert_eq!(add_u8_wrapping(a, b), s);
                    assert_eq!(add_u8_saturating(a, b), s);
                }
                None => {
                    assert_eq!(add_u8_wrapping(a, b), 0);
                    assert_eq!(add_u8_saturating(a, b), a.max(b));
                }
            }
            assert!(add_u8_saturating(a, b) >= a && add_u8_saturating(a, b) >= b);
        }
        assert_eq!(add_u8_checked(a, 0), Some(a));
    }
}

#[test]
fn records_count_up_modulo_251() {
    assert_eq!(make_record(0), [0, 1, 2, 3, 4, 5, 6, 7, 8, 9]);
    assert_eq!(make_record(245), [245, 246, 247, 248, 249, 250, 0, 1, 2, 3]);
    assert_eq!(make_record(251), make_record(0));
    assert_eq!(make_record(1000), make_record(1000 % 251));
    let r = make_record(77);
    let next = make_record(78);
    for i in 0..RECORD_SIZE - 1 {
        assert_eq!(next[i], r[i + 1]);
        assert_eq!(r[i + 1] as usize, (r[i] as usize + 1) % 251);
    }
    let last = make_record(usize::MAX - (RECORD_SIZE - 1));
    assert_eq!(last[RECORD_SIZE - 1] as usize, usize::MAX % 251);
}

#[test]
fn arguments_are_sorted_without_the_program_name() {
    let args: Vec<String> = ["prog", "pear", "apple", "Zebra", "é", "apple", "", "app"]
        .iter()
        .map(|s| s.to_string())
        .collect();
    assert_eq!(
        sort_arguments(args),
        vec!["", "Zebra", "app", "apple", "apple", "pear", "é"]
    );
    assert!(sort_arguments(vec![]).is_empty());
    assert!(sort_arguments(vec!["zz".to_string()]).is_empty());
}

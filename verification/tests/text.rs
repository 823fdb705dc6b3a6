use ncmprs::text::{decimal_string, find_name, format_time, str_lt};

#[test]
fn format_time_minutes_and_seconds() {
    assert_eq!(format_time(0), "0:00");
    assert_eq!(format_time(7), "0:07");
    assert_eq!(format_time(65), "1:05");
    assert_eq!(format_time(187), "3:07");
    assert_eq!(format_time(600), "10:00");
    assert_eq!(format_time(3599), "59:59");
    assert_eq!(format_time(3600), "60:00");
    assert_eq!(format_time(7384), "123:04");
}

#[test]
fn decimal_notation() {
    assert_eq!(decimal_string(0), "0");
    assert_eq!(decimal_string(9), "9");
    assert_eq!(decimal_string(10), "10");
    assert_eq!(decimal_string(1234567890), "1234567890");
    assert_eq!(decimal_string(u64::MAX), u64::MAX.to_string());
}

#[test]
fn string_order_matches_std() {
    let words = ["", "a", "ab", "abc", "b", "B", "Zed", "zed", "é", "z", "ä", "日本", "日"];
    for x in words.iter() {
        for y in words.iter() {
            assert_eq!(str_lt(x, y), x < y, "{:?} < {:?}", x, y);
        }
    }
}

#[test]
fn find_name_in_sorted_list() {
    let names: Vec<String> = vec!["Alpha".into(), "Gamma".into(), "Omega".into()];
    assert_eq!(find_name(&names, &"Gamma".to_string()), (1, true));
    assert_eq!(find_name(&names, &"Beta".to_string()), (1, false));
    assert_eq!(find_name(&names, &"Zeta".to_string()), (3, false));
    assert_eq!(find_name(&names, &"A".to_string()), (0, false));
}

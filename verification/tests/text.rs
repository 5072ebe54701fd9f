use backup_system::text::{chars_of, str_concat, decimal_string};

#[test]
fn decimal_strings() {
    for n in [0usize, 7, 9, 10, 42, 100, 1000001, usize::MAX] {
        assert_eq!(decimal_string(n), n.to_string());
    }
}

#[test]
fn concat_and_chars() {
    assert_eq!(str_concat("ab", "ç"), "abç");
    assert_eq!(chars_of("añb"), vec!['a', 'ñ', 'b']);
}

use nichy::db::{migrate, row_count, seconds_or_zero, unix_now, SCHEMA_V1};
use nichy::text::{parse_word, to_dec, to_hex, white_space};
use nichy::wide::{read_wide, read_wide_opt, write_wide, write_wide_opt, WideJson};

#[test]
fn white_space_is_that_of_unicode() {
    for n in 0..=0x10ffffu32 {
        if let Some(c) = char::from_u32(n) {
            assert_eq!(white_space(c), c.is_whitespace(), "{n:x}");
        }
    }
}

#[test]
fn numerals_are_written_and_read() {
    for n in [0u128, 1, 9, 10, 255, 256, u64::MAX as u128, u128::MAX] {
        assert_eq!(to_dec(n).iter().collect::<String>(), format!("{n}"));
        assert_eq!(to_hex(n).iter().collect::<String>(), format!("{n:x}"));
    }
    for s in ["0", "007", "+5", "18446744073709551615", "18446744073709551616", "", "+", "-1", "1 "] {
        let chars: Vec<char> = s.chars().collect();
        assert_eq!(parse_word(&chars), s.parse::<usize>().ok(), "{s}");
    }
}

#[test]
fn clock_and_counts() {
    assert!(unix_now() > 1_600_000_000);
    assert_eq!(seconds_or_zero(Some(7)), 7);
    assert_eq!(seconds_or_zero(None), 0);
    assert_eq!(row_count(Some(3)), 3);
    assert_eq!(row_count(None), 0);
}

#[test]
fn migration_is_due_below_the_first_version() {
    let m = migrate(0).unwrap();
    assert_eq!(m.version, 1);
    assert_eq!(m.batch, SCHEMA_V1);
    assert!(migrate(1).is_none());
    assert!(migrate(2).is_none());
    assert!(migrate(-1).is_some());
}

#[test]
fn wide_numbers_are_read_back() {
    for n in [0u128, 1, 10, u64::MAX as u128 + 1, u128::MAX] {
        assert!(matches!(write_wide(n), WideJson::Text(s) if s == n.to_string()));
        assert!(matches!(write_wide_opt(Some(n)), WideJson::Text(s) if s == n.to_string()));
        assert_eq!(read_wide(&write_wide(n)), Some(n));
        assert_eq!(read_wide_opt(&write_wide_opt(Some(n))), Some(Some(n)));
    }
    assert!(matches!(write_wide_opt(None), WideJson::Null));
    assert_eq!(read_wide_opt(&write_wide_opt(None)), Some(None));
    assert_eq!(read_wide(&WideJson::Null), None);
}

#[test]
fn json_values_are_read_as_wide_numbers() {
    for s in ["", "+", "-1", "1_0", "0x1", "340282366920938463463374607431768211456", "+7", "007"] {
        let text = WideJson::Text(s.into());
        assert_eq!(read_wide(&text), s.parse::<u128>().ok(), "{s}");
        assert_eq!(read_wide_opt(&text), s.parse::<u128>().ok().map(Some), "{s}");
    }
    for v in [0u64, 5, u64::MAX] {
        assert_eq!(read_wide(&WideJson::Unsigned(v)), Some(v as u128));
        assert_eq!(read_wide_opt(&WideJson::Unsigned(v)), Some(Some(v as u128)));
    }
    for v in [0i64, 5, -1, i64::MIN, i64::MAX] {
        assert_eq!(read_wide(&WideJson::Signed(v)), Some(v as u128));
        assert_eq!(read_wide_opt(&WideJson::Signed(v)), Some(Some(v as u128)));
    }
}

use chat_core::clock::format_timestamp;
use chat_core::server::Server;

#[test]
fn format_timestamp_zero_pads_every_field() {
    assert_eq!(format_timestamp(2001, 2, 3, 4, 5, 6), "2001-02-03 04:05:06");
    assert_eq!(format_timestamp(0, 1, 1, 0, 0, 0), "0000-01-01 00:00:00");
    assert_eq!(format_timestamp(1999, 12, 31, 23, 59, 59), "1999-12-31 23:59:59");
}

#[test]
fn format_timestamp_pins_year_into_four_digits() {
    assert_eq!(format_timestamp(-5, 1, 1, 0, 0, 0), "0000-01-01 00:00:00");
    assert_eq!(format_timestamp(20000, 1, 1, 0, 0, 0), "9999-01-01 00:00:00");
}

#[test]
fn show_time_has_the_fixed_shape() {
    let s = Server::new("ops".to_string());
    let r = s.show_time();
    assert_eq!(r.0, None);
    let t = r.1;
    assert_eq!(t.len(), 21);
    assert!(t.ends_with("\r\n"));
    let b = t.as_bytes();
    assert_eq!(b[4], b'-');
    assert_eq!(b[7], b'-');
    assert_eq!(b[10], b' ');
    assert_eq!(b[13], b':');
    assert_eq!(b[16], b':');
    for i in [0, 1, 2, 3, 5, 6, 8, 9, 11, 12, 14, 15, 17, 18] {
        assert!(b[i].is_ascii_digit());
    }
    // the clock really was read: the year of a live reading is not the
    // all-zero pin
    assert_ne!(&t[0..4], "0000");
}

#[test]
fn dispatched_time_matches_shape() {
    let mut s = Server::new("ops".to_string());
    let r = s.handle_line("/TIME", &"1.1.1.1:1".to_string());
    assert_eq!(r.0, None);
    assert_eq!(r.1.len(), 21);
}

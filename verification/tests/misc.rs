use forever_perfmon::console::{key_from_event, resume_choice, Key, KEY_EVENT};
use forever_perfmon::csv::{csv_escape, csv_line};
use forever_perfmon::time::{current_time_display, current_time_file, current_time_saved, SystemTime};

fn time(month: u16) -> SystemTime {
    SystemTime {
        year: 2024,
        month,
        day_of_week: 2,
        day: 5,
        hour: 7,
        minute: 8,
        second: 9,
        milliseconds: 123,
    }
}

#[test]
fn formats_local_time() {
    assert_eq!(current_time_display(&time(3)), "Mar. 05, 2024   07:08:09");
    assert_eq!(current_time_display(&time(0)), ". 05, 2024   07:08:09");
    assert_eq!(current_time_display(&time(13)), "???. 05, 2024   07:08:09");
    assert_eq!(current_time_file(&time(12)), "2024-12-05_07-08-09");
    assert_eq!(current_time_saved(&time(1)), "2024-01-05 07:08:09");
    let mut t = time(1);
    t.year = 7;
    t.hour = 123;
    assert_eq!(current_time_saved(&t), "0007-01-05 123:08:09");
}

#[test]
fn quotes_csv_fields() {
    assert_eq!(csv_escape("plain"), "\"plain\"");
    assert_eq!(csv_escape("say \"hi\""), "\"say \"\"hi\"\"\"");
    assert_eq!(csv_escape(""), "\"\"");
    let fields = vec!["a".to_string(), "".to_string(), "b,\"c\"".to_string()];
    assert_eq!(csv_line(&fields), "\"a\",\"\",\"b,\"\"c\"\"\"");
    assert_eq!(csv_line(&Vec::new()), "");
}

#[test]
fn maps_console_keys() {
    assert_eq!(key_from_event(KEY_EVENT, 1, 'c' as u16), Some(Key::C));
    assert_eq!(key_from_event(KEY_EVENT, 1, 'Q' as u16), Some(Key::Q));
    assert_eq!(key_from_event(KEY_EVENT, 1, 'r' as u16), Some(Key::R));
    assert_eq!(key_from_event(KEY_EVENT, 0, 'c' as u16), None);
    assert_eq!(key_from_event(2, 1, 'c' as u16), None);
    assert_eq!(key_from_event(KEY_EVENT, 1, 'x' as u16), None);
    assert_eq!(resume_choice(Some(Key::C)), Some(true));
    assert_eq!(resume_choice(Some(Key::R)), Some(false));
    assert_eq!(resume_choice(Some(Key::Q)), None);
    assert_eq!(resume_choice(None), None);
}

#[test]
fn escaped_fields_read_back() {
    for field in ["", "plain", "a\"b", "\"\"", "x,\"y\"\nz"] {
        let escaped = csv_escape(field);
        assert!(escaped.starts_with('"') && escaped.ends_with('"'));
        let body = &escaped[1..escaped.len() - 1];
        assert_eq!(body.replace("\"\"", "\""), field);
    }
}

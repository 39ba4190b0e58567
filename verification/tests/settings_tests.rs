use heelix::orchestrator::VectorizationSettings;
use heelix::settings::{
    flag_is_set, flag_text, get_setting, interval_length, number_text, parse_number, update_settings,
    vectorization_settings, Setting, Settings, DEFAULT_INTERVAL,
};

fn setting(key: &str, value: &str) -> Setting {
    Setting { setting_key: key.to_string(), setting_value: value.to_string() }
}

#[test]
fn numbers_are_written_in_decimal() {
    assert_eq!(number_text(0), "0");
    assert_eq!(number_text(7), "7");
    assert_eq!(number_text(10), "10");
    assert_eq!(number_text(20), "20");
    assert_eq!(number_text(1_000_000), "1000000");
    assert_eq!(number_text(u64::MAX), "18446744073709551615");
}

#[test]
fn numbers_are_read_from_digits() {
    assert_eq!(parse_number("0"), Some(0));
    assert_eq!(parse_number("20"), Some(20));
    assert_eq!(parse_number("+7"), Some(7));
    assert_eq!(parse_number("007"), Some(7));
    assert_eq!(parse_number("18446744073709551615"), Some(u64::MAX));
}

#[test]
fn text_that_is_no_number_is_refused() {
    for text in ["", "+", "++1", "-3", "12a", " 5", "5 ", "1_000", "1.5", "٣", "18446744073709551616", "99999999999999999999999"] {
        assert_eq!(parse_number(text), None);
        assert_eq!(parse_number(text), text.parse::<u64>().ok());
    }
}

#[test]
fn writing_and_reading_a_number_gives_it_back() {
    for n in [0u64, 1, 9, 10, 99, 100, 12_345, u64::MAX - 1, u64::MAX] {
        assert_eq!(parse_number(&number_text(n)), Some(n));
        assert_eq!(number_text(n), n.to_string());
    }
}

#[test]
fn interval_falls_back_to_the_default() {
    assert_eq!(DEFAULT_INTERVAL, 20);
    assert_eq!(interval_length("45"), 45);
    assert_eq!(interval_length("0"), 0);
    assert_eq!(interval_length(""), 20);
    assert_eq!(interval_length("fast"), 20);
    assert_eq!(interval_length("-1"), 20);
}

#[test]
fn truth_values_are_true_and_false() {
    assert_eq!(flag_text(true), "true");
    assert_eq!(flag_text(false), "false");
    assert!(flag_is_set("true"));
    assert!(!flag_is_set("false"));
    assert!(!flag_is_set("True"));
    assert!(!flag_is_set(""));
    assert!(!flag_is_set("true "));
}

#[test]
fn edited_settings_become_seven_entries() {
    let settings = Settings {
        interval: 30,
        is_dev_mode: false,
        auto_start: true,
        api_choice: "openai".to_string(),
        api_key_claude: "key-a".to_string(),
        api_key_open_ai: "key-o".to_string(),
        vectorization_enabled: true,
    };
    assert_eq!(
        update_settings(&settings),
        vec![
            setting("interval", "30"),
            setting("is_dev_mode", "false"),
            setting("auto_start", "true"),
            setting("api_choice", "openai"),
            setting("api_key_claude", "key-a"),
            setting("api_key_open_ai", "key-o"),
            setting("vectorization_enabled", "true"),
        ]
    );
}

#[test]
fn missing_setting_reads_as_empty() {
    assert_eq!(get_setting(None, "interval"), setting("interval", ""));
    assert_eq!(get_setting(Some(setting("interval", "5")), "interval"), setting("interval", "5"));
    assert_eq!(get_setting(Some(setting("other", "x")), "interval"), setting("other", "x"));
}

#[test]
fn vectorization_settings_come_from_stored_values() {
    let expected = |enabled: bool| VectorizationSettings {
        enabled,
        min_text_length: 200,
        credential: "sk".to_string(),
    };
    assert_eq!(vectorization_settings(Some("true"), "sk".to_string()), expected(true));
    assert_eq!(vectorization_settings(Some("false"), "sk".to_string()), expected(false));
    assert_eq!(vectorization_settings(Some(""), "sk".to_string()), expected(false));
    assert_eq!(vectorization_settings(None, "sk".to_string()), expected(true));
    assert_eq!(vectorization_settings(Some("true"), String::new()).credential, "");
}

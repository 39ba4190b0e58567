//! Settings as the store keeps them, one key and one value of text each, and
//! what the rest of the program reads out of them.

use vstd::prelude::*;
use vstd::string::StringExecFns;
use crate::orchestrator::{MIN_TEXT_LENGTH, VectorizationSettings};
use crate::text::{chars_of, same_text};

verus! {

/// One stored setting.
#[derive(Debug, PartialEq, Eq)]
pub struct Setting {
    pub setting_key: String,
    pub setting_value: String,
}

/// The settings that the user edits.
#[derive(Debug, PartialEq, Eq)]
pub struct Settings {
    /// Seconds between two captures.
    pub interval: u64,
    pub is_dev_mode: bool,
    pub auto_start: bool,
    pub api_choice: String,
    pub api_key_claude: String,
    pub api_key_open_ai: String,
    pub vectorization_enabled: bool,
}

/// Seconds between two captures when the stored value is no number.
pub const DEFAULT_INTERVAL: u64 = 20;

/// Mathematical value of a stored setting: its key and its value.
pub open spec fn setting_model(setting: Setting) -> (Seq<char>, Seq<char>) {
    (setting.setting_key@, setting.setting_value@)
}

/// Mathematical values of a list of settings, in the same order.
pub open spec fn setting_models(settings: Seq<Setting>) -> Seq<(Seq<char>, Seq<char>)> {
    Seq::new(settings.len(), |i: int| setting_model(settings[i]))
}

/// The character for the digit `d`.
pub open spec fn digit_char(d: int) -> char
    recommends
        0 <= d <= 9,
{
    if d == 0 {
        '0'
    } else if d == 1 {
        '1'
    } else if d == 2 {
        '2'
    } else if d == 3 {
        '3'
    } else if d == 4 {
        '4'
    } else if d == 5 {
        '5'
    } else if d == 6 {
        '6'
    } else if d == 7 {
        '7'
    } else if d == 8 {
        '8'
    } else {
        '9'
    }
}

/// The digit that `c` stands for, if it is a decimal digit.
pub open spec fn digit_value(c: char) -> Option<int> {
    if c == '0' {
        Some(0)
    } else if c == '1' {
        Some(1)
    } else if c == '2' {
        Some(2)
    } else if c == '3' {
        Some(3)
    } else if c == '4' {
        Some(4)
    } else if c == '5' {
        Some(5)
    } else if c == '6' {
        Some(6)
    } else if c == '7' {
        Some(7)
    } else if c == '8' {
        Some(8)
    } else if c == '9' {
        Some(9)
    } else {
        None
    }
}

/// The decimal digits of `n`, most significant first, without leading zeros;
/// `0` is written `0`.
pub open spec fn decimal_text(n: nat) -> Seq<char>
    decreases n,
{
    if n < 10 {
        seq![digit_char(n as int)]
    } else {
        decimal_text(n / 10).push(digit_char((n % 10) as int))
    }
}

/// Whether every character of `s` is a decimal digit.
pub open spec fn all_digits(s: Seq<char>) -> bool {
    forall|i: int| 0 <= i < s.len() ==> digit_value(#[trigger] s[i]) is Some
}

/// The number that a sequence of decimal digits stands for.
pub open spec fn decimal_value(s: Seq<char>) -> nat
    decreases s.len(),
{
    if s.len() == 0 {
        0
    } else {
        let digit: int = match digit_value(s.last()) {
            Some(d) => d,
            None => 0,
        };
        (decimal_value(s.drop_last()) * 10 + digit) as nat
    }
}

/// The digits of a text that may start with a `+`.
pub open spec fn unsigned_part(s: Seq<char>) -> Seq<char> {
    if s.len() > 0 && s[0] == '+' {
        s.drop_first()
    } else {
        s
    }
}

/// The number that a text stands for: an optional `+`, then one or more
/// decimal digits, nothing else, and a value that fits 64 bits.
pub open spec fn parsed_number(s: Seq<char>) -> Option<u64> {
    let digits = unsigned_part(s);
    if digits.len() > 0 && all_digits(digits) && decimal_value(digits) <= u64::MAX {
        Some(decimal_value(digits) as u64)
    } else {
        None
    }
}

/// The text for a truth value.
pub open spec fn bool_text(b: bool) -> Seq<char> {
    if b {
        "true"@
    } else {
        "false"@
    }
}

/// The character for a digit.
fn digit_to_char(d: u64) -> (c: char)
    requires
        d <= 9,
    ensures
        c == digit_char(d as int),
{
    if d == 0 {
        '0'
    } else if d == 1 {
        '1'
    } else if d == 2 {
        '2'
    } else if d == 3 {
        '3'
    } else if d == 4 {
        '4'
    } else if d == 5 {
        '5'
    } else if d == 6 {
        '6'
    } else if d == 7 {
        '7'
    } else if d == 8 {
        '8'
    } else {
        '9'
    }
}

/// The digit that a character stands for.
fn char_to_digit(c: char) -> (d: Option<u64>)
    ensures
        match d {
            Some(v) => digit_value(c) == Some(v as int) && v <= 9,
            None => digit_value(c) is None,
        },
{
    if c == '0' {
        Some(0)
    } else if c == '1' {
        Some(1)
    } else if c == '2' {
        Some(2)
    } else if c == '3' {
        Some(3)
    } else if c == '4' {
        Some(4)
    } else if c == '5' {
        Some(5)
    } else if c == '6' {
        Some(6)
    } else if c == '7' {
        Some(7)
    } else if c == '8' {
        Some(8)
    } else if c == '9' {
        Some(9)
    } else {
        None
    }
}

/// Writes a number in decimal.
pub fn number_text(n: u64) -> (text: String)
    ensures
        text@ == decimal_text(n as nat),
    decreases n,
{
    if n < 10 {
        let mut text = String::new();
        text.push(digit_to_char(n));
        assert(text@ =~= seq![digit_char(n as int)]);
        text
    } else {
        let mut text = number_text(n / 10);
        text.push(digit_to_char(n % 10));
        text
    }
}

/// The value of the first `k` digits is no more than the value of all.
proof fn lemma_decimal_value_grows(s: Seq<char>, k: int)
    requires
        0 <= k <= s.len(),
    ensures
        decimal_value(s.subrange(0, k)) <= decimal_value(s),
    decreases s.len() - k,
{
    if k == s.len() {
        assert(s.subrange(0, k) =~= s);
    } else {
        lemma_decimal_value_grows(s.drop_last(), k);
        assert(s.drop_last().subrange(0, k) =~= s.subrange(0, k));
    }
}

/// Reads a number: an optional `+`, then decimal digits and nothing else.
/// Text that is no such number, or a number that does not fit 64 bits, gives
/// `None`.
pub fn parse_number(text: &str) -> (number: Option<u64>)
    ensures
        number == parsed_number(text@),
{
    let chars = chars_of(text);
    let n: usize = chars.len();
    let start: usize = if n > 0 && chars[0] == '+' {
        1
    } else {
        0
    };
    let ghost digits = unsigned_part(text@);
    proof {
        assert(digits =~= chars@.subrange(start as int, n as int));
    }
    if start == n {
        return None;
    }
    let mut value: u64 = 0;
    let mut i: usize = start;
    proof {
        assert(digits.subrange(0, 0) =~= Seq::<char>::empty());
    }
    while i < n
        invariant
            start <= i <= n,
            n == chars@.len(),
            chars@ == text@,
            digits == chars@.subrange(start as int, n as int),
            digits == unsigned_part(text@),
            all_digits(digits.subrange(0, i - start)),
            decimal_value(digits.subrange(0, i - start)) == value,
        decreases n - i,
    {
        let ghost seen = digits.subrange(0, i - start);
        let ghost longer = digits.subrange(0, i - start + 1);
        proof {
            assert(longer.drop_last() =~= seen);
            assert(longer.last() == chars@[i as int]);
        }
        match char_to_digit(chars[i]) {
            None => {
                proof {
                    assert(digit_value(digits[i - start]) is None);
                    assert(!all_digits(digits));
                }
                return None;
            },
            Some(d) => {
                if value > (u64::MAX - d) / 10 {
                    proof {
                        assert(decimal_value(longer) == value * 10 + d);
                        lemma_decimal_value_grows(digits, i - start + 1);
                    }
                    return None;
                }
                value = value * 10 + d;
                proof {
                    assert forall|j: int| 0 <= j < longer.len() implies digit_value(
                        #[trigger] longer[j],
                    ) is Some by {
                        if j < seen.len() {
                            assert(longer[j] == seen[j]);
                        }
                    }
                }
            },
        }
        i = i + 1;
    }
    proof {
        assert(digits.subrange(0, n - start) =~= digits);
    }
    Some(value)
}

/// Writing a number and reading it back gives the number.
pub proof fn lemma_number_text_round_trip(n: u64)
    ensures
        parsed_number(decimal_text(n as nat)) == Some(n),
{
    lemma_decimal_text_is_number(n as nat);
    let text = decimal_text(n as nat);
    assert(digit_value(text[0]) is Some);
    assert(text[0] != '+');
}

/// The decimal text of a number consists of digits, at least one, and stands
/// for the number.
pub proof fn lemma_decimal_text_is_number(n: nat)
    ensures
        decimal_text(n).len() > 0,
        all_digits(decimal_text(n)),
        decimal_value(decimal_text(n)) == n,
    decreases n,
{
    let text = decimal_text(n);
    if n < 10 {
        assert(text.drop_last() =~= Seq::<char>::empty());
        assert(text.last() == digit_char(n as int));
        assert(decimal_value(text.drop_last()) == 0);
    } else {
        lemma_decimal_text_is_number(n / 10);
        let front = decimal_text(n / 10);
        assert(text.drop_last() =~= front);
        assert(text.last() == digit_char((n % 10) as int));
        assert forall|i: int| 0 <= i < text.len() implies digit_value(#[trigger] text[i]) is Some by {
            if i < front.len() {
                assert(text[i] == front[i]);
            }
        }
    }
}

/// Seconds between two captures, from the stored setting: the number it
/// holds, or `DEFAULT_INTERVAL` when it holds none.
pub fn interval_length(setting_value: &str) -> (seconds: u64)
    ensures
        seconds == match parsed_number(setting_value@) {
            Some(n) => n,
            None => DEFAULT_INTERVAL,
        },
{
    match parse_number(setting_value) {
        Some(n) => n,
        None => DEFAULT_INTERVAL,
    }
}

/// Writes a truth value as `true` or `false`.
pub fn flag_text(b: bool) -> (text: String)
    ensures
        text@ == bool_text(b),
{
    if b {
        String::from_str("true")
    } else {
        String::from_str("false")
    }
}

/// Whether a stored truth value is `true`: exactly the text `true`.
pub fn flag_is_set(setting_value: &str) -> (set: bool)
    ensures
        set == (setting_value@ == "true"@),
{
    same_text(setting_value, "true")
}

/// The stored settings that `settings` amounts to, in the order in which they
/// are written: `interval`, `is_dev_mode`, `auto_start`, `api_choice`,
/// `api_key_claude`, `api_key_open_ai`, `vectorization_enabled`.
pub open spec fn entries_of(settings: Settings) -> Seq<(Seq<char>, Seq<char>)> {
    seq![
        ("interval"@, decimal_text(settings.interval as nat)),
        ("is_dev_mode"@, bool_text(settings.is_dev_mode)),
        ("auto_start"@, bool_text(settings.auto_start)),
        ("api_choice"@, settings.api_choice@),
        ("api_key_claude"@, settings.api_key_claude@),
        ("api_key_open_ai"@, settings.api_key_open_ai@),
        ("vectorization_enabled"@, bool_text(settings.vectorization_enabled)),
    ]
}

/// One stored setting.
fn entry(key: &str, value: String) -> (setting: Setting)
    ensures
        setting_model(setting) == (key@, value@),
{
    Setting { setting_key: String::from_str(key), setting_value: value }
}

/// Turns the settings that the user edited into the entries to store, one for
/// each field: numbers in decimal, truth values as `true` or `false`, texts as
/// they are.
pub fn update_settings(settings: &Settings) -> (entries: Vec<Setting>)
    ensures
        setting_models(entries@) == entries_of(*settings),
{
    let mut entries: Vec<Setting> = Vec::new();
    entries.push(entry("interval", number_text(settings.interval)));
    entries.push(entry("is_dev_mode", flag_text(settings.is_dev_mode)));
    entries.push(entry("auto_start", flag_text(settings.auto_start)));
    entries.push(entry("api_choice", settings.api_choice.clone()));
    entries.push(entry("api_key_claude", settings.api_key_claude.clone()));
    entries.push(entry("api_key_open_ai", settings.api_key_open_ai.clone()));
    entries.push(entry("vectorization_enabled", flag_text(settings.vectorization_enabled)));
    assert(setting_models(entries@) =~= entries_of(*settings));
    entries
}

/// The setting that a lookup of `setting_key` amounts to: what was found, or
/// a setting with that key and an empty value when nothing was found.
pub fn get_setting(found: Option<Setting>, setting_key: &str) -> (setting: Setting)
    ensures
        setting_model(setting) == match found {
            Some(stored) => setting_model(stored),
            None => (setting_key@, Seq::<char>::empty()),
        },
{
    match found {
        Some(stored) => stored,
        None => Setting { setting_key: String::from_str(setting_key), setting_value: String::new() },
    }
}

/// Whether vectorization is switched on, from the lookup of the setting
/// `vectorization_enabled`: a lookup that failed counts as switched on, and a
/// stored value counts as switched on exactly when it is `true`.
pub open spec fn switch_of(lookup: Option<Seq<char>>) -> bool {
    match lookup {
        Some(value) => value == "true"@,
        None => true,
    }
}

/// Mathematical value of the lookup of a setting's value.
pub open spec fn lookup_model(lookup: Option<&str>) -> Option<Seq<char>> {
    match lookup {
        Some(value) => Some(value@),
        None => None,
    }
}

/// What the orchestrator needs to know of the settings, from the lookup of
/// `vectorization_enabled` and the stored key of the embedding service. The
/// minimum text length is `MIN_TEXT_LENGTH`.
pub fn vectorization_settings(enabled_lookup: Option<&str>, api_key: String) -> (settings:
    VectorizationSettings)
    ensures
        settings.enabled == switch_of(lookup_model(enabled_lookup)),
        settings.min_text_length == MIN_TEXT_LENGTH,
        settings.credential@ == api_key@,
{
    let enabled = match enabled_lookup {
        Some(value) => flag_is_set(value),
        None => true,
    };
    VectorizationSettings { enabled, min_text_length: MIN_TEXT_LENGTH, credential: api_key }
}

} // verus!

use voice_relay::morse::{decode_continuous_dp, decode_continuous_greedy, decode_morse,
    get_morse_table, lookup_code};

#[test]
fn segmented_decodes_letters() {
    assert_eq!(decode_morse(".- -... ."), "АБЕ");
}

#[test]
fn segmented_unknown_code_keeps_neighbours() {
    // Six dots are no known code: a placeholder stands in its position and
    // the surrounding letters survive.
    assert_eq!(decode_morse(".- ...... ."), "А?Е");
}

#[test]
fn segmented_double_space_separates_words() {
    assert_eq!(decode_morse(".- -...  ."), "АБ Е");
}

#[test]
fn segmented_sos_style() {
    assert_eq!(decode_morse("... --- ...  .... . .--."), "СОС ХЕП");
}

#[test]
fn segmented_empty_codes_add_nothing() {
    // A leading single space makes an empty letter code, which contributes
    // no output at all.
    assert_eq!(decode_morse(" .-"), "А");
}

#[test]
fn continuous_single_code() {
    // Without separators the shortest complete segmentation wins: one code
    // of three dots, not three single-dot codes.
    assert_eq!(decode_morse("..."), "С");
}

#[test]
fn continuous_round_trip_is_no_longer_than_encoded_text() {
    // "МИР" encodes to "--" + ".." + ".-."; a complete decoding exists, so
    // the result covers the input with at most three characters.
    let encoded = "--...-.";
    let decoded = decode_morse(encoded);
    assert!(decoded.chars().count() <= 3);
    // The minimal segmentation has two letters; ties keep the first found.
    assert_eq!(decoded, "ГФ");
}

#[test]
fn continuous_greedy_covers_noise() {
    // 'x' belongs to no code, so no complete segmentation exists; the
    // greedy pass covers everything and marks the odd character.
    assert_eq!(decode_morse("...x"), "С?");
}

#[test]
fn greedy_result_no_longer_than_input() {
    let input = "x.-x-...x";
    let out = decode_morse(input);
    assert!(out.chars().count() <= input.chars().count());
}

#[test]
fn dp_entry_point_matches_top_level() {
    let table = get_morse_table();
    assert_eq!(decode_continuous_dp("--...-.", &table), "ГФ");
    assert_eq!(decode_continuous_dp("", &table), "");
}

#[test]
fn greedy_entry_point_prefers_longest_match() {
    let table = get_morse_table();
    // Greedy takes the five-dot digit first, then the lone dot.
    assert_eq!(decode_continuous_greedy("......", &table), "5Е");
}

#[test]
fn table_has_all_surviving_codes() {
    let table = get_morse_table();
    assert_eq!(table.len(), 45);
}

#[test]
fn lookup_follows_last_write_wins() {
    // Codes shared by the Latin and Cyrillic sets kept the Cyrillic letter.
    assert_eq!(lookup_code(&['.', '-']), Some('А'));
    assert_eq!(lookup_code(&['-', '.', '.', '.']), Some('Б'));
    assert_eq!(lookup_code(&['.', '-', '.', '-', '.', '-']), Some('.'));
    assert_eq!(lookup_code(&['-', '-', '-', '-']), Some('Ш'));
}

#[test]
fn lookup_rejects_unknown_codes() {
    assert_eq!(lookup_code(&[]), None);
    assert_eq!(lookup_code(&['x']), None);
    assert_eq!(lookup_code(&['.', '.', '.', '.', '.', '.']), None);
    assert_eq!(lookup_code(&['.', '.', '.', '.', '.', '.', '.']), None);
}

#[test]
fn decode_is_total_on_odd_input() {
    assert_eq!(decode_morse(""), "");
    assert_eq!(decode_morse("???"), "???");
    assert_eq!(decode_morse("привет"), "??????");
}

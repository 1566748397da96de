/// `strict-checksum`, `id`. Never `strict_checksum`, never `strictChecksum`.
fn is_kebab_case(key: &str) -> bool {
    !key.is_empty()
        && key.starts_with(|c: char| c.is_ascii_lowercase())
        && key.chars().all(|c| c.is_ascii_lowercase() || c.is_ascii_digit() || c == '-')
}

/// `strict_checksum`, `elapsed_ns`, `id`. Never `strict-checksum`, never `elapsedNs`.
fn is_snake_case(key: &str) -> bool {
    !key.is_empty()
        && key.starts_with(|c: char| c.is_ascii_lowercase())
        && key.chars().all(|c| c.is_ascii_lowercase() || c.is_ascii_digit() || c == '_')
}

#[test]
fn the_guards_would_catch_a_key_from_the_other_side() {
    assert!(is_kebab_case("strict-checksum") && !is_snake_case("strict-checksum"));
    assert!(is_snake_case("elapsed_ns") && !is_kebab_case("elapsed_ns"));
    assert!(is_kebab_case("id") && is_snake_case("id"));
    assert!(!is_kebab_case("strictChecksum") && !is_snake_case("strictChecksum"));
}

#[test]
fn the_guard_would_catch_a_renamed_key() {
    assert!(is_snake_case("strict_checksum"));
    assert!(is_snake_case("id"));
    assert!(!is_snake_case("strictChecksum"));
    assert!(!is_snake_case("strict-checksum"));
    assert!(!is_snake_case("StrictChecksum"));
    assert!(!is_snake_case("_private"));
}

#[test]
fn every_column_of_a_csv_row_is_snake_case() {
    for column in langbench::sample::CSV_COLUMNS {
        assert!(is_snake_case(column), "{column}");
    }
}

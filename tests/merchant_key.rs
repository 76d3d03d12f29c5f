use budget_analyser::merchant::normalise_merchant_key;

#[test]
fn test_sbb_mobile_grouping() {
    let a = normalise_merchant_key("SBB MOBILE");
    let b = normalise_merchant_key("SBB MOBILE");
    assert_eq!(a, b);
    assert_eq!(a, "SBB MOBILE");
}

#[test]
fn test_strip_ebill_suffix() {
    let key = normalise_merchant_key("Steuerverwaltung EBILL-RECHT");
    assert_eq!(key, "STEUERVERWALTUNG");
}

#[test]
fn test_coop_variants_stay_separate() {
    let a = normalise_merchant_key("COOP PRONTO BHFSTR ZURICH");
    let b = normalise_merchant_key("COOP CITY BASEL");
    assert_ne!(a, b);
}

#[test]
fn test_migros_reference_number_stripping() {
    let a = normalise_merchant_key("MIGROS BASEL M 01234 KARTE 1234");
    let b = normalise_merchant_key("MIGROS BASEL M 56789 KARTE 1234");
    assert_eq!(a, b);
    assert_eq!(a, "MIGROS BASEL M");
}

#[test]
fn test_vivao_sympa_ebill() {
    let key = normalise_merchant_key("Vivao Sympa EBILL-RECHT");
    assert_eq!(key, "VIVAO SYMPA");
}

#[test]
fn test_sunrise_ebill() {
    let key = normalise_merchant_key("Sunrise GmbH EBILL");
    assert_eq!(key, "SUNRISE GMBH");
}

#[test]
fn merchant_key_lowercase_is_upper_cased() {
    assert_eq!(normalise_merchant_key("coop city basel"), "COOP CITY BASEL");
}

#[test]
fn merchant_key_collapses_whitespace_and_drops_numbers() {
    assert_eq!(normalise_merchant_key("  Denner   4051  Basel\t12 "), "DENNER BASEL");
}

#[test]
fn merchant_key_empty_and_only_numbers() {
    assert_eq!(normalise_merchant_key(""), "");
    assert_eq!(normalise_merchant_key("1234 5678"), "");
    assert_eq!(normalise_merchant_key("KARTE 1234"), "");
}

#[test]
fn merchant_key_keeps_mixed_tokens() {
    assert_eq!(normalise_merchant_key("Shop A1 99"), "SHOP A1");
}

#[test]
fn merchant_key_splits_on_unicode_whitespace() {
    assert_eq!(normalise_merchant_key("Caf\u{e9}\u{3000}Z\u{fc}rich\u{a0}7"), "CAF\u{c9} Z\u{dc}RICH");
}

use banking::currency::{currency_exchange, record_exchange_rate, CurrencyRegistry};
use banking::decimal::Decimal;
use banking::error::BankError;

fn micros(n: i64) -> Decimal {
    Decimal::from_micros(n).unwrap()
}

fn units(n: i64) -> Decimal {
    Decimal::from_units(n).unwrap()
}

fn pairs(list: &[(&str, &str)]) -> Vec<(String, String)> {
    list.iter().map(|(code, name)| (code.to_string(), name.to_string())).collect()
}

fn six() -> CurrencyRegistry {
    CurrencyRegistry::seed(
        "PHP",
        "Philippine Peso",
        &pairs(&[
            ("USD", "United States Dollar"),
            ("JPY", "Japanese Yen"),
            ("GBP", "British Pound Sterling"),
            ("EUR", "Euro"),
            ("CNY", "Chinese Yuan Renminbi"),
        ]),
    )
}

fn two() -> CurrencyRegistry {
    CurrencyRegistry::seed("PHP", "Philippine Peso", &pairs(&[("USD", "United States Dollar")]))
}

fn codes(registry: &CurrencyRegistry) -> Vec<String> {
    registry.currencies().iter().map(|c| c.code().to_string()).collect()
}

#[test]
fn seed_keeps_the_order_and_sets_the_rates() {
    let registry = six();
    assert_eq!(registry.base_code(), "PHP");
    assert_eq!(codes(&registry), ["PHP", "USD", "JPY", "GBP", "EUR", "CNY"]);
    let list = registry.currencies();
    assert_eq!(list.len(), 6);
    assert_eq!(list[0].display_name(), "Philippine Peso");
    assert_eq!(list[0].exchange_rate(), Decimal::one());
    assert_eq!(list[5].display_name(), "Chinese Yuan Renminbi");
    for currency in &list[1..] {
        assert_eq!(currency.exchange_rate(), Decimal::zero());
    }
}

#[test]
fn seed_with_no_other_currency() {
    let registry = CurrencyRegistry::seed("PHP", "Philippine Peso", &Vec::new());
    assert_eq!(codes(&registry), ["PHP"]);
    assert_eq!(registry.lookup("php").map(|c| c.exchange_rate()), Ok(Decimal::one()));
}

#[test]
fn seed_stores_codes_in_upper_case() {
    let registry = CurrencyRegistry::seed("php", "Peso", &pairs(&[("usd", "Dollar"), ("Eur", "Euro")]));
    assert_eq!(registry.base_code(), "PHP");
    assert_eq!(codes(&registry), ["PHP", "USD", "EUR"]);
    assert_eq!(registry.lookup("PHP").map(|c| c.code().to_string()), Ok("PHP".to_string()));
    assert_eq!(registry.lookup("USD").map(|c| c.display_name().to_string()), Ok("Dollar".to_string()));
}

#[test]
fn seed_passes_over_codes_that_are_taken() {
    let registry = CurrencyRegistry::seed(
        "PHP",
        "Philippine Peso",
        &pairs(&[("USD", "Dollar"), ("php", "Another Peso"), ("usd", "Another Dollar"), ("EUR", "Euro")]),
    );
    assert_eq!(codes(&registry), ["PHP", "USD", "EUR"]);
    let base = registry.lookup("PHP").unwrap();
    assert_eq!(base.display_name(), "Philippine Peso");
    assert_eq!(base.exchange_rate(), Decimal::one());
    assert_eq!(registry.lookup("USD").unwrap().display_name(), "Dollar");
}

#[test]
fn lookup_ignores_case() {
    let registry = six();
    for code in ["USD", "usd", "Usd", "uSd"] {
        let found = registry.lookup(code).unwrap();
        assert_eq!(found.code(), "USD");
        assert_eq!(found.display_name(), "United States Dollar");
    }
}

#[test]
fn lookup_raises_every_letter() {
    let registry =
        CurrencyRegistry::seed("PHP", "Peso", &pairs(&[("é1", "Accented"), ("ß", "Sharp")]));
    assert_eq!(codes(&registry), ["PHP", "É1", "SS"]);
    for code in ["é1", "É1"] {
        assert_eq!(registry.lookup(code).map(|c| c.display_name()), Ok("Accented"));
    }
    for code in ["ß", "ss", "SS", "sS"] {
        assert_eq!(registry.lookup(code).map(|c| c.display_name()), Ok("Sharp"));
    }
    assert_eq!(six().lookup("u\u{17f}d").map(|c| c.code()), Ok("USD"));
}

#[test]
fn with_codes_stores_codes_as_given() {
    let registry = CurrencyRegistry::with_codes(
        "php",
        "Peso",
        &pairs(&[("Usd", "Dollar"), ("USD", "Big Dollar"), ("Usd", "Again"), ("php", "Again")]),
    );
    assert_eq!(registry.base_code(), "php");
    assert_eq!(codes(&registry), ["php", "Usd", "USD"]);
    assert_eq!(registry.find("Usd").map(|c| c.display_name()), Ok("Dollar"));
    assert_eq!(registry.find("USD").map(|c| c.display_name()), Ok("Big Dollar"));
    assert_eq!(registry.find("usd").err(), Some(BankError::UnknownCurrency));
    assert_eq!(registry.find("php").map(|c| c.exchange_rate()), Ok(Decimal::one()));
    assert_eq!(registry.lookup("php").err(), Some(BankError::UnknownCurrency));
    assert_eq!(registry.lookup("usd").map(|c| c.display_name()), Ok("Big Dollar"));
}

#[test]
fn find_takes_the_code_exactly() {
    let registry = six();
    assert_eq!(registry.find("USD").map(|c| c.display_name()), Ok("United States Dollar"));
    for code in ["usd", "Usd", " USD", "USD\n", "", "XYZ"] {
        assert_eq!(registry.find(code).err(), Some(BankError::UnknownCurrency), "{:?}", code);
    }
}

#[test]
fn set_rate_takes_the_code_exactly() {
    let mut registry = six();
    assert_eq!(registry.set_rate("usd", units(56)), Err(BankError::UnknownCurrency));
    assert_eq!(registry.set_rate("PHP", units(56)), Err(BankError::ImmutableBaseRate));
    assert_eq!(registry.set_rate("PHP", units(-56)), Err(BankError::ImmutableBaseRate));
    assert_eq!(registry.set_rate("USD", units(-56)), Err(BankError::InvalidRate));
    assert_eq!(registry.find("USD").map(|c| c.exchange_rate()), Ok(Decimal::zero()));
    let updated = registry.set_rate("USD", units(56)).unwrap();
    assert_eq!(updated.code(), "USD");
    assert_eq!(updated.display_name(), "United States Dollar");
    assert_eq!(updated.exchange_rate(), units(56));
    assert_eq!(registry.find("USD").unwrap(), &updated);
    assert_eq!(codes(&registry), ["PHP", "USD", "JPY", "GBP", "EUR", "CNY"]);
}

#[test]
fn exchange_takes_the_codes_exactly() {
    let mut registry = two();
    assert_eq!(registry.exchange(units(100), "PHP", "USD"), Err(BankError::RateNotSet));
    registry.set_rate("USD", units(56)).unwrap();
    assert_eq!(registry.exchange(units(100), "PHP", "USD"), Ok(micros(1_785_714)));
    assert_eq!(registry.exchange(units(100), "USD", "PHP"), Ok(units(5600)));
    assert_eq!(registry.exchange(units(100), "php", "USD"), Err(BankError::UnknownCurrency));
    assert_eq!(registry.exchange(units(100), "PHP", "usd"), Err(BankError::UnknownCurrency));
}

#[test]
fn lookup_entered_sets_white_space_aside() {
    let registry = six();
    for line in ["usd\n", " USD ", "\tUsd\r\n", "USD"] {
        assert_eq!(registry.lookup_entered(line).map(|c| c.code()), Ok("USD"), "{:?}", line);
    }
    for line in ["", "\n", "U SD\n", "XYZ\n"] {
        assert_eq!(registry.lookup_entered(line).err(), Some(BankError::UnknownCurrency));
    }
}

#[test]
fn lookup_of_an_unknown_code_fails() {
    let registry = six();
    for code in ["", "XYZ", "US", "USDD", " USD", "USD "] {
        assert_eq!(registry.lookup(code).err(), Some(BankError::UnknownCurrency), "{:?}", code);
    }
}

#[test]
fn record_rate_overwrites_and_returns_the_currency() {
    let mut registry = six();
    let updated = registry.record_rate("usd", units(56)).unwrap();
    assert_eq!(updated.code(), "USD");
    assert_eq!(updated.display_name(), "United States Dollar");
    assert_eq!(updated.exchange_rate(), units(56));
    assert_eq!(registry.lookup("USD").unwrap(), &updated);
    let again = registry.record_rate("USD", micros(57_250_000)).unwrap();
    assert_eq!(again.exchange_rate(), micros(57_250_000));
    assert_eq!(registry.lookup("USD").unwrap().exchange_rate(), micros(57_250_000));
    assert_eq!(codes(&registry), ["PHP", "USD", "JPY", "GBP", "EUR", "CNY"]);
    assert_eq!(registry.lookup("JPY").unwrap().exchange_rate(), Decimal::zero());
    assert_eq!(registry.lookup("PHP").unwrap().exchange_rate(), Decimal::one());
}

#[test]
fn record_rate_accepts_zero() {
    let mut registry = six();
    registry.record_rate("USD", units(56)).unwrap();
    assert_eq!(registry.record_rate("USD", Decimal::zero()).map(|c| c.exchange_rate()), Ok(Decimal::zero()));
    assert_eq!(registry.convert(units(1), "USD", "PHP"), Err(BankError::RateNotSet));
}

#[test]
fn record_rate_on_the_base_currency_is_refused() {
    let mut registry = six();
    for rate in [units(1), units(2), Decimal::zero(), units(-1), micros(1_000_000_000_000_000_000)] {
        assert_eq!(registry.record_rate("PHP", rate), Err(BankError::ImmutableBaseRate));
        assert_eq!(registry.record_rate("php", rate), Err(BankError::ImmutableBaseRate));
        assert_eq!(registry.lookup("PHP").unwrap().exchange_rate(), Decimal::one());
    }
}

#[test]
fn record_rate_refuses_unknown_codes_and_negative_rates() {
    let mut registry = six();
    registry.record_rate("USD", units(56)).unwrap();
    assert_eq!(registry.record_rate("XYZ", units(2)), Err(BankError::UnknownCurrency));
    assert_eq!(registry.record_rate("XYZ", units(-2)), Err(BankError::UnknownCurrency));
    assert_eq!(registry.record_rate("USD", micros(-1)), Err(BankError::InvalidRate));
    assert_eq!(registry.record_rate("USD", units(-56)), Err(BankError::InvalidRate));
    assert_eq!(registry.lookup("USD").unwrap().exchange_rate(), units(56));
    assert_eq!(codes(&registry), ["PHP", "USD", "JPY", "GBP", "EUR", "CNY"]);
}

#[test]
fn convert_needs_both_rates() {
    let mut registry = two();
    assert_eq!(registry.convert(units(100), "PHP", "USD"), Err(BankError::RateNotSet));
    assert_eq!(registry.convert(units(100), "USD", "PHP"), Err(BankError::RateNotSet));
    assert_eq!(registry.convert(units(100), "USD", "USD"), Err(BankError::RateNotSet));
    let recorded = registry.record_rate("USD", units(56)).unwrap();
    assert_eq!(recorded.exchange_rate(), units(56));
    let converted = registry.convert(units(100), "PHP", "USD").unwrap();
    assert_eq!(converted, micros(1_785_714));
    assert_eq!(converted.round_to_cents(), micros(1_790_000));
    let shown = converted.micros() as f64 / 1e6;
    assert!((shown - 100.0 * 1.0 / 56.0).abs() < 1e-6);
    assert_eq!(registry.convert(units(100), "USD", "PHP"), Ok(units(5600)));
}

#[test]
fn convert_goes_through_the_base() {
    let mut registry = six();
    registry.record_rate("USD", units(56)).unwrap();
    registry.record_rate("JPY", micros(380_000)).unwrap();
    assert_eq!(registry.convert(units(10), "usd", "jpy"), Ok(micros(1_473_684_210)));
    assert_eq!(registry.convert(units(1000), "JPY", "USD"), Ok(micros(6_785_714)));
}

#[test]
fn convert_into_the_same_currency_gives_the_amount_back() {
    let mut registry = six();
    registry.record_rate("USD", micros(56_123_457)).unwrap();
    for amount in [0, 1, -1, 100_000_000, 333_333_333, -777_777_777_777, 1_000_000_000_000_000_000] {
        assert_eq!(registry.convert(micros(amount), "USD", "usd"), Ok(micros(amount)));
        assert_eq!(registry.convert(micros(amount), "PHP", "PHP"), Ok(micros(amount)));
    }
}

#[test]
fn convert_cuts_negative_amounts_towards_zero() {
    let mut registry = two();
    registry.record_rate("USD", units(56)).unwrap();
    assert_eq!(registry.convert(units(-100), "PHP", "USD"), Ok(micros(-1_785_714)));
    assert_eq!(registry.convert(Decimal::zero(), "PHP", "USD"), Ok(Decimal::zero()));
}

#[test]
fn convert_refuses_unknown_codes_first() {
    let registry = two();
    assert_eq!(registry.convert(units(1), "XYZ", "USD"), Err(BankError::UnknownCurrency));
    assert_eq!(registry.convert(units(1), "USD", "XYZ"), Err(BankError::UnknownCurrency));
    assert_eq!(registry.convert(units(1), "XYZ", "ABC"), Err(BankError::UnknownCurrency));
    assert_eq!(registry.convert(units(1), "PHP", "XYZ"), Err(BankError::UnknownCurrency));
}

#[test]
fn convert_reports_a_result_out_of_range() {
    let mut registry = two();
    registry.record_rate("USD", micros(1)).unwrap();
    assert_eq!(registry.convert(units(1_000_000), "PHP", "USD"), Ok(units(1_000_000_000_000)));
    assert_eq!(registry.convert(micros(1_000_000_000_001), "PHP", "USD"), Err(BankError::InvalidAmount));
    assert_eq!(registry.convert(units(-2_000_000), "PHP", "USD"), Err(BankError::InvalidAmount));
}

#[test]
fn record_exchange_rate_reads_the_rate() {
    let mut registry = six();
    let updated = record_exchange_rate(&mut registry, "usd", "56.0").unwrap();
    assert_eq!(updated.code(), "USD");
    assert_eq!(updated.exchange_rate(), units(56));
    assert_eq!(registry.lookup("USD").unwrap().exchange_rate(), units(56));
    assert_eq!(
        record_exchange_rate(&mut registry, " jpy \n", " 0.38\n").map(|c| c.exchange_rate()),
        Ok(micros(380_000))
    );
    assert_eq!(
        record_exchange_rate(&mut registry, "GBP", "0.0178571").map(|c| c.exchange_rate()),
        Ok(micros(17_857))
    );
}

#[test]
fn record_exchange_rate_refusals() {
    let mut registry = six();
    record_exchange_rate(&mut registry, "USD", "56").unwrap();
    assert_eq!(record_exchange_rate(&mut registry, "XYZ", "56"), Err(BankError::UnknownCurrency));
    assert_eq!(record_exchange_rate(&mut registry, "XYZ", "abc"), Err(BankError::UnknownCurrency));
    assert_eq!(record_exchange_rate(&mut registry, "PHP", "2"), Err(BankError::ImmutableBaseRate));
    assert_eq!(record_exchange_rate(&mut registry, "php", "abc"), Err(BankError::ImmutableBaseRate));
    assert_eq!(record_exchange_rate(&mut registry, "PHP", "-1"), Err(BankError::ImmutableBaseRate));
    assert_eq!(record_exchange_rate(&mut registry, "USD", "abc"), Err(BankError::InvalidRate));
    assert_eq!(record_exchange_rate(&mut registry, "USD", ""), Err(BankError::InvalidRate));
    assert_eq!(record_exchange_rate(&mut registry, "USD", "inf"), Err(BankError::InvalidRate));
    assert_eq!(record_exchange_rate(&mut registry, "USD", "-0.5"), Err(BankError::InvalidRate));
    assert_eq!(registry.lookup("USD").unwrap().exchange_rate(), units(56));
    assert_eq!(registry.lookup("PHP").unwrap().exchange_rate(), Decimal::one());
}

#[test]
fn currency_exchange_reads_the_amount() {
    let mut registry = two();
    assert_eq!(currency_exchange(&registry, "PHP", "100", "USD"), Err(BankError::RateNotSet));
    record_exchange_rate(&mut registry, "USD", "56.0").unwrap();
    assert_eq!(currency_exchange(&registry, "PHP", "100", "USD"), Ok(micros(1_785_714)));
    assert_eq!(currency_exchange(&registry, "usd", "2.5", "php"), Ok(units(140)));
    assert_eq!(currency_exchange(&registry, "usd", "-2.5", "php"), Ok(units(-140)));
    assert_eq!(currency_exchange(&registry, " usd\n", " 2.5\n", "php \n"), Ok(units(140)));
}

#[test]
fn currency_exchange_refusals_come_in_order() {
    let mut registry = two();
    assert_eq!(currency_exchange(&registry, "XYZ", "abc", "ABC"), Err(BankError::UnknownCurrency));
    assert_eq!(currency_exchange(&registry, "XYZ", "1", "USD"), Err(BankError::UnknownCurrency));
    assert_eq!(currency_exchange(&registry, "PHP", "abc", "ABC"), Err(BankError::UnknownCurrency));
    assert_eq!(currency_exchange(&registry, "PHP", "NaN", "ABC"), Err(BankError::UnknownCurrency));
    assert_eq!(currency_exchange(&registry, "PHP", "inf", "ABC"), Err(BankError::UnknownCurrency));
    assert_eq!(currency_exchange(&registry, "USD", "1", "ABC"), Err(BankError::UnknownCurrency));
    assert_eq!(currency_exchange(&registry, "PHP", "1", "ABC"), Err(BankError::UnknownCurrency));
    assert_eq!(currency_exchange(&registry, "PHP", "abc", "USD"), Err(BankError::InvalidAmount));
    assert_eq!(currency_exchange(&registry, "PHP", "NaN", "USD"), Err(BankError::InvalidAmount));
    assert_eq!(currency_exchange(&registry, "PHP", "1", "USD"), Err(BankError::RateNotSet));
    record_exchange_rate(&mut registry, "USD", "0.000001").unwrap();
    assert_eq!(
        currency_exchange(&registry, "PHP", "1000000.000001", "USD"),
        Err(BankError::InvalidAmount)
    );
}

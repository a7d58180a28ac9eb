//! Currencies and the registry of their exchange rates.
//!
//! The registry works in three layers. The innermost takes a code exactly as
//! the registry stores it ([`CurrencyRegistry::find`],
//! [`CurrencyRegistry::set_rate`], [`CurrencyRegistry::exchange`]). Around it,
//! [`CurrencyRegistry::lookup`], [`CurrencyRegistry::record_rate`] and
//! [`CurrencyRegistry::convert`] put a code into upper case first, so that
//! the case in which it is written does not matter. Outermost,
//! [`record_exchange_rate`] and [`currency_exchange`] take the lines that a
//! user entered.

use vstd::prelude::*;
use indexmap::IndexMap;
use crate::decimal::{
    lemma_quotient_undoes_product, quotient_toward_zero, representable, Decimal, LIMIT, SCALE,
};
use crate::error::BankError;
use crate::input::{decimal_micros, parse_decimal, trim, trimmed};
use crate::ordered_map::{
    entries, lacks_key, map_get, map_get_index, map_get_mut, map_insert, map_len, map_new,
};

verus! {

/// The upper-case form of `text`, as Unicode defines it and
/// `str::to_uppercase` computes it.
pub uninterp spec fn uppercase(text: Seq<char>) -> Seq<char>;

/// `str::to_uppercase`: the upper-case form of `text`. What that form is, is
/// not stated here: it is only given the name [`uppercase`].
#[verifier::external_body]
fn to_upper(text: &str) -> (raised: String)
    ensures
        raised@ == uppercase(text@),
{
    text.to_uppercase()
}

/// What a currency holds, as mathematical values.
pub struct CurrencyView {
    /// The short code, such as `USD`.
    pub code: Seq<char>,
    /// The name shown to people.
    pub display_name: Seq<char>,
    /// How many millionths of the base currency one unit is worth; zero
    /// while no rate has been recorded.
    pub exchange_rate: int,
}

/// One currency of the registry.
#[derive(Debug, PartialEq, Eq)]
pub struct Currency {
    code: String,
    display_name: String,
    exchange_rate: Decimal,
}

impl View for Currency {
    type V = CurrencyView;

    closed spec fn view(&self) -> CurrencyView {
        CurrencyView {
            code: self.code@,
            display_name: self.display_name@,
            exchange_rate: self.exchange_rate@,
        }
    }
}

impl Clone for Currency {
    fn clone(&self) -> (copy: Self)
        ensures
            copy@ == self@,
    {
        proof {
            use_type_invariant(self);
        }
        Currency {
            code: self.code.clone(),
            display_name: self.display_name.clone(),
            exchange_rate: self.exchange_rate,
        }
    }
}

impl Currency {
    /// What holds of every `Currency`: its rate is not below zero.
    #[verifier::type_invariant]
    pub open spec fn rate_not_negative(self) -> bool {
        0 <= self@.exchange_rate <= LIMIT
    }

    /// The short code, as the registry stores it.
    pub fn code(&self) -> (code: &str)
        ensures
            code@ == self@.code,
    {
        self.code.as_str()
    }

    /// The name shown to people.
    pub fn display_name(&self) -> (name: &str)
        ensures
            name@ == self@.display_name,
    {
        self.display_name.as_str()
    }

    /// How much of the base currency one unit is worth; zero while no rate
    /// has been recorded. It is never below zero.
    pub fn exchange_rate(&self) -> (rate: Decimal)
        ensures
            rate@ == self@.exchange_rate,
            0 <= rate@,
    {
        proof {
            use_type_invariant(self);
        }
        self.exchange_rate
    }
}

/// What a registry holds, as mathematical values.
pub struct RegistryView {
    /// The code of the base currency.
    pub base_code: Seq<char>,
    /// The currencies, in the order in which they were seeded.
    pub currencies: Seq<CurrencyView>,
}

/// `pairs` of code and display name, with each code in upper case.
pub open spec fn raised(pairs: Seq<(Seq<char>, Seq<char>)>) -> Seq<(Seq<char>, Seq<char>)> {
    Seq::new(pairs.len(), |i: int| (uppercase(pairs[i].0), pairs[i].1))
}

impl RegistryView {
    /// Whether a currency with exactly this code is held.
    pub open spec fn holds(self, code: Seq<char>) -> bool {
        exists|i: int|
            0 <= i < self.currencies.len() && (#[trigger] self.currencies[i]).code == code
    }

    /// The place of a currency with exactly this code. Meant for a code that
    /// is held.
    pub open spec fn place(self, code: Seq<char>) -> int {
        choose|i: int|
            0 <= i < self.currencies.len() && (#[trigger] self.currencies[i]).code == code
    }

    /// What every registry satisfies: no code occurs twice, every rate lies
    /// between zero and the limit, and the base currency is held with a rate
    /// of exactly one.
    pub open spec fn valid(self) -> bool {
        &&& forall|i: int, j: int|
            0 <= i < j < self.currencies.len() ==> (#[trigger] self.currencies[i]).code != (
            #[trigger] self.currencies[j]).code
        &&& forall|i: int|
            0 <= i < self.currencies.len() ==> 0 <= (#[trigger] self.currencies[i]).exchange_rate
                <= LIMIT
        &&& self.holds(self.base_code)
        &&& self.currencies[self.place(self.base_code)].exchange_rate == SCALE
    }

    /// The registry that holds the base currency alone, at a rate of one.
    pub open spec fn founded(base_code: Seq<char>, base_name: Seq<char>) -> RegistryView {
        RegistryView {
            base_code,
            currencies: seq![
                CurrencyView { code: base_code, display_name: base_name, exchange_rate: SCALE as int },
            ],
        }
    }

    /// This registry with one more currency at the end, its rate not yet
    /// recorded; unchanged where the code is held already.
    pub open spec fn with_currency(self, code: Seq<char>, display_name: Seq<char>) -> RegistryView {
        if self.holds(code) {
            self
        } else {
            RegistryView {
                currencies: self.currencies.push(
                    CurrencyView { code, display_name, exchange_rate: 0 },
                ),
                ..self
            }
        }
    }

    /// The registry that holds a base currency and then, in order, each of
    /// `others`, given as pairs of code and display name, the codes taken
    /// exactly as they are.
    pub open spec fn seeded(
        base_code: Seq<char>,
        base_name: Seq<char>,
        others: Seq<(Seq<char>, Seq<char>)>,
    ) -> RegistryView
        decreases others.len(),
    {
        if others.len() == 0 {
            Self::founded(base_code, base_name)
        } else {
            Self::seeded(base_code, base_name, others.drop_last()).with_currency(
                others.last().0,
                others.last().1,
            )
        }
    }

    /// The currency with exactly the code `code`.
    pub open spec fn found(self, code: Seq<char>) -> Result<CurrencyView, BankError> {
        if self.holds(code) {
            Ok(self.currencies[self.place(code)])
        } else {
            Err(BankError::UnknownCurrency)
        }
    }

    /// The outcome of recording `rate` millionths as the rate of the currency
    /// with exactly the code `code`: the registry as it is afterwards, or the
    /// refusal.
    pub open spec fn rate_set(self, code: Seq<char>, rate: int) -> Result<RegistryView, BankError> {
        if !self.holds(code) {
            Err(BankError::UnknownCurrency)
        } else if code == self.base_code {
            Err(BankError::ImmutableBaseRate)
        } else if rate < 0 {
            Err(BankError::InvalidRate)
        } else {
            let at = self.place(code);
            Ok(
                RegistryView {
                    currencies: self.currencies.update(
                        at,
                        CurrencyView { exchange_rate: rate, ..self.currencies[at] },
                    ),
                    ..self
                },
            )
        }
    }

    /// The outcome of converting `amount` millionths of the currency with
    /// exactly the code `from` into the one with exactly the code `to`: the
    /// amount times the rate of `from`, divided by the rate of `to` and cut
    /// towards zero.
    pub open spec fn exchanged(self, amount: int, from: Seq<char>, to: Seq<char>) -> Result<
        int,
        BankError,
    > {
        match (self.found(from), self.found(to)) {
            (Err(e), _) => Err(e),
            (Ok(_), Err(e)) => Err(e),
            (Ok(source), Ok(target)) => {
                if source.exchange_rate == 0 || target.exchange_rate == 0 {
                    Err(BankError::RateNotSet)
                } else {
                    let converted = quotient_toward_zero(
                        amount * source.exchange_rate,
                        target.exchange_rate,
                    );
                    if representable(converted) {
                        Ok(converted)
                    } else {
                        Err(BankError::InvalidAmount)
                    }
                }
            },
        }
    }

    /// The currency that `code` names, whatever the case of its letters.
    pub open spec fn lookup(self, code: Seq<char>) -> Result<CurrencyView, BankError> {
        self.found(uppercase(code))
    }

    /// The outcome of recording `rate` millionths as the rate of the currency
    /// that `code` names, whatever the case of its letters.
    pub open spec fn record_rate(self, code: Seq<char>, rate: int) -> Result<
        RegistryView,
        BankError,
    > {
        self.rate_set(uppercase(code), rate)
    }

    /// The outcome of converting `amount` millionths of the currency that
    /// `from` names into the currency that `to` names, whatever the case of
    /// their letters.
    pub open spec fn convert(self, amount: int, from: Seq<char>, to: Seq<char>) -> Result<
        int,
        BankError,
    > {
        self.exchanged(amount, uppercase(from), uppercase(to))
    }

    /// The outcome of recording, for the currency that the line `code` names,
    /// the rate that the line `entered` spells. The base currency is refused
    /// before the rate is read.
    pub open spec fn record_entered(self, code: Seq<char>, entered: Seq<char>) -> Result<
        RegistryView,
        BankError,
    > {
        if self.lookup(trimmed(code)) is Err {
            Err(BankError::UnknownCurrency)
        } else if uppercase(trimmed(code)) == self.base_code {
            Err(BankError::ImmutableBaseRate)
        } else {
            match decimal_micros(trimmed(entered)) {
                Some(rate) => self.record_rate(trimmed(code), rate),
                None => Err(BankError::InvalidRate),
            }
        }
    }

    /// The outcome of converting the amount that the line `entered` spells
    /// from the currency that the line `from` names into the one that the
    /// line `to` names. Both currencies are looked up before the amount is
    /// read.
    pub open spec fn convert_entered(
        self,
        from: Seq<char>,
        entered: Seq<char>,
        to: Seq<char>,
    ) -> Result<int, BankError> {
        if self.lookup(trimmed(from)) is Err || self.lookup(trimmed(to)) is Err {
            Err(BankError::UnknownCurrency)
        } else {
            match decimal_micros(trimmed(entered)) {
                Some(amount) => self.convert(amount, trimmed(from), trimmed(to)),
                None => Err(BankError::InvalidAmount),
            }
        }
    }
}

/// The views of the values of `pairs`, in order.
pub open spec fn currency_views(pairs: Seq<(Seq<char>, Currency)>) -> Seq<CurrencyView> {
    Seq::new(pairs.len(), |i: int| pairs[i].1@)
}

/// The registry of currencies and their exchange rates.
#[derive(Debug)]
pub struct CurrencyRegistry {
    base_code: String,
    currencies: IndexMap<String, Currency>,
}

impl View for CurrencyRegistry {
    type V = RegistryView;

    closed spec fn view(&self) -> RegistryView {
        RegistryView {
            base_code: self.base_code@,
            currencies: currency_views(entries(self.currencies)),
        }
    }
}

/// The code and display name of each of `pairs`, as sequences of characters.
pub open spec fn name_pairs(pairs: Seq<(String, String)>) -> Seq<(Seq<char>, Seq<char>)> {
    Seq::new(pairs.len(), |i: int| (pairs[i].0@, pairs[i].1@))
}

/// Whether each of `pairs` is filed under the code of its currency.
spec fn filed_by_code(pairs: Seq<(Seq<char>, Currency)>) -> bool {
    forall|i: int| 0 <= i < pairs.len() ==> (#[trigger] pairs[i]).0 == pairs[i].1@.code
}

/// A key that the map lacks is a code that the registry does not hold, and a
/// key that the map has is one that it holds.
proof fn lemma_keys_are_codes(
    base_code: Seq<char>,
    pairs: Seq<(Seq<char>, Currency)>,
    key: Seq<char>,
)
    requires
        filed_by_code(pairs),
    ensures
        lacks_key(pairs, key) <==> !(RegistryView {
            base_code,
            currencies: currency_views(pairs),
        }).holds(key),
{
    let view = RegistryView { base_code, currencies: currency_views(pairs) };
    if view.holds(key) {
        let i = view.place(key);
        assert(pairs[i].0 == key);
    }
    if !lacks_key(pairs, key) {
        let i = choose|i: int| 0 <= i < pairs.len() && (#[trigger] pairs[i]).0 == key;
        assert(view.currencies[i].code == key);
    }
}

/// In a valid registry a currency is found at the one place that has its code.
proof fn lemma_place_is_unique(view: RegistryView, at: int)
    requires
        view.valid(),
        0 <= at < view.currencies.len(),
    ensures
        view.holds(view.currencies[at].code),
        view.place(view.currencies[at].code) == at,
{
    let code = view.currencies[at].code;
    assert(view.holds(code));
    let found = view.place(code);
    if found < at {
        assert(view.currencies[found].code != view.currencies[at].code);
    } else if at < found {
        assert(view.currencies[at].code != view.currencies[found].code);
    }
}

/// A registry that holds its base currency alone is valid.
pub proof fn lemma_founded_is_valid(base_code: Seq<char>, base_name: Seq<char>)
    ensures
        RegistryView::founded(base_code, base_name).valid(),
{
    let view = RegistryView::founded(base_code, base_name);
    assert(view.currencies[0].code == view.base_code);
    assert(view.holds(view.base_code));
}

/// Adding a currency keeps a registry valid, and keeps every currency it
/// held, the base currency among them, as it was.
pub proof fn lemma_with_currency_keeps_valid(
    view: RegistryView,
    code: Seq<char>,
    display_name: Seq<char>,
)
    requires
        view.valid(),
    ensures
        view.with_currency(code, display_name).valid(),
        view.with_currency(code, display_name).base_code == view.base_code,
        forall|i: int|
            0 <= i < view.currencies.len() ==> view.with_currency(code, display_name).currencies[i]
                == view.currencies[i],
{
    let after = view.with_currency(code, display_name);
    if !view.holds(code) {
        let base_at = view.place(view.base_code);
        assert(after.currencies[base_at].code == view.base_code);
        assert(after.holds(after.base_code));
        assert forall|i: int, j: int| 0 <= i < j < after.currencies.len() implies (
        #[trigger] after.currencies[i]).code != (#[trigger] after.currencies[j]).code by {
            if j == view.currencies.len() {
                assert(view.currencies[i].code != code);
            } else {
                assert(view.currencies[i].code != view.currencies[j].code);
            }
        }
        let found = after.place(after.base_code);
        if found != base_at {
            if found < base_at {
                assert(after.currencies[found].code != after.currencies[base_at].code);
            } else {
                assert(after.currencies[base_at].code != after.currencies[found].code);
            }
        }
    }
}

/// Every seeded registry is valid: its codes are distinct and its base
/// currency has the rate one.
pub proof fn lemma_seeded_is_valid(
    base_code: Seq<char>,
    base_name: Seq<char>,
    others: Seq<(Seq<char>, Seq<char>)>,
)
    ensures
        RegistryView::seeded(base_code, base_name, others).valid(),
        RegistryView::seeded(base_code, base_name, others).base_code == base_code,
    decreases others.len(),
{
    if others.len() == 0 {
        lemma_founded_is_valid(base_code, base_name);
    } else {
        lemma_seeded_is_valid(base_code, base_name, others.drop_last());
        lemma_with_currency_keeps_valid(
            RegistryView::seeded(base_code, base_name, others.drop_last()),
            others.last().0,
            others.last().1,
        );
    }
}

impl CurrencyRegistry {
    #[verifier::type_invariant]
    spec fn well_formed(self) -> bool {
        &&& filed_by_code(entries(self.currencies))
        &&& self@.valid()
    }

    /// A registry with the base currency `base_code`, at the fixed rate of
    /// one, followed by each of `others` (pairs of code and display name) with
    /// no rate recorded yet. The codes are stored exactly as they are given;
    /// an entry whose code is already taken is passed over.
    pub fn with_codes(base_code: &str, base_name: &str, others: &Vec<(String, String)>) -> (registry:
        CurrencyRegistry)
        ensures
            registry@ == RegistryView::seeded(base_code@, base_name@, name_pairs(others@)),
            registry@.valid(),
    {
        let mut currencies = map_new();
        let base = Currency {
            code: base_code.to_owned(),
            display_name: base_name.to_owned(),
            exchange_rate: Decimal::one(),
        };
        map_insert(&mut currencies, base_code.to_owned(), base);
        proof {
            let view = RegistryView {
                base_code: base_code@,
                currencies: currency_views(entries(currencies)),
            };
            assert(name_pairs(others@).take(0).len() == 0);
            assert(view.currencies =~= RegistryView::founded(base_code@, base_name@).currencies);
            lemma_founded_is_valid(base_code@, base_name@);
        }
        let mut done: usize = 0;
        while done < others.len()
            invariant
                done <= others.len(),
                filed_by_code(entries(currencies)),
                (RegistryView {
                    base_code: base_code@,
                    currencies: currency_views(entries(currencies)),
                }) == RegistryView::seeded(
                    base_code@,
                    base_name@,
                    name_pairs(others@).take(done as int),
                ),
                (RegistryView {
                    base_code: base_code@,
                    currencies: currency_views(entries(currencies)),
                }).valid(),
            decreases others.len() - done,
        {
            let ghost before = RegistryView {
                base_code: base_code@,
                currencies: currency_views(entries(currencies)),
            };
            let key = others[done].0.as_str();
            proof {
                lemma_keys_are_codes(base_code@, entries(currencies), key@);
                let sofar = name_pairs(others@).take(done + 1);
                assert(sofar.drop_last() =~= name_pairs(others@).take(done as int));
                assert(sofar.last() == (others[done as int].0@, others[done as int].1@));
            }
            if map_get(&currencies, key).is_none() {
                let added = Currency {
                    code: key.to_owned(),
                    display_name: others[done].1.clone(),
                    exchange_rate: Decimal::zero(),
                };
                map_insert(&mut currencies, key.to_owned(), added);
                proof {
                    let after = RegistryView {
                        base_code: base_code@,
                        currencies: currency_views(entries(currencies)),
                    };
                    assert(after.currencies =~= before.with_currency(
                        others[done as int].0@,
                        others[done as int].1@,
                    ).currencies);
                    lemma_with_currency_keeps_valid(
                        before,
                        others[done as int].0@,
                        others[done as int].1@,
                    );
                }
            }
            done = done + 1;
        }
        proof {
            assert(name_pairs(others@).take(others.len() as int) =~= name_pairs(others@));
        }
        CurrencyRegistry { base_code: base_code.to_owned(), currencies }
    }

    /// A registry seeded with the base currency `base_code`, at the fixed rate
    /// of one, followed by each of `others` (pairs of code and display name)
    /// with no rate recorded yet. Every code is stored in upper case; an entry
    /// whose code, in upper case, is already taken is passed over.
    pub fn seed(base_code: &str, base_name: &str, others: &Vec<(String, String)>) -> (registry:
        CurrencyRegistry)
        ensures
            registry@ == RegistryView::seeded(
                uppercase(base_code@),
                base_name@,
                raised(name_pairs(others@)),
            ),
            registry@.valid(),
    {
        let mut listed: Vec<(String, String)> = Vec::new();
        let mut done: usize = 0;
        while done < others.len()
            invariant
                done <= others.len(),
                listed@.len() == done,
                name_pairs(listed@) == raised(name_pairs(others@)).take(done as int),
            decreases others.len() - done,
        {
            let code = to_upper(others[done].0.as_str());
            let name = others[done].1.clone();
            let ghost before = name_pairs(listed@);
            listed.push((code, name));
            proof {
                let now = name_pairs(listed@);
                let goal = raised(name_pairs(others@)).take(done + 1);
                assert(now.len() == goal.len());
                assert forall|i: int| 0 <= i < now.len() implies now[i] == goal[i] by {
                    if i < done {
                        assert(now[i] == before[i]);
                    } else {
                        assert(listed@[i].0@ == uppercase(others@[i].0@));
                        assert(listed@[i].1@ == others@[i].1@);
                    }
                }
                assert(now =~= goal);
            }
            done = done + 1;
        }
        proof {
            assert(raised(name_pairs(others@)).take(others.len() as int) =~= raised(
                name_pairs(others@),
            ));
        }
        let base_key = to_upper(base_code);
        Self::with_codes(base_key.as_str(), base_name, &listed)
    }

    /// The code of the base currency.
    pub fn base_code(&self) -> (code: &str)
        ensures
            code@ == self@.base_code,
            self@.valid(),
    {
        proof {
            use_type_invariant(self);
        }
        self.base_code.as_str()
    }

    /// The currencies, in the order in which the registry was seeded.
    pub fn currencies(&self) -> (list: Vec<Currency>)
        ensures
            list@.len() == self@.currencies.len(),
            forall|i: int| 0 <= i < list@.len() ==> (#[trigger] list@[i])@ == self@.currencies[i],
            self@.valid(),
    {
        proof {
            use_type_invariant(self);
        }
        let count = map_len(&self.currencies);
        let mut list: Vec<Currency> = Vec::new();
        let mut at: usize = 0;
        while at < count
            invariant
                at <= count,
                count == entries(self.currencies).len(),
                list@.len() == at,
                forall|i: int|
                    0 <= i < at ==> (#[trigger] list@[i])@ == entries(self.currencies)[i].1@,
            decreases count - at,
        {
            match map_get_index(&self.currencies, at) {
                Some((_, currency)) => {
                    list.push(currency.clone());
                },
                None => {},
            }
            at = at + 1;
        }
        list
    }

    /// The currency with exactly the code `code`, or `UnknownCurrency`.
    pub fn find(&self, code: &str) -> (outcome: Result<&Currency, BankError>)
        ensures
            match self@.found(code@) {
                Ok(currency) => outcome is Ok && outcome->Ok_0@ == currency,
                Err(e) => outcome == Err::<&Currency, BankError>(e),
            },
            self@.valid(),
    {
        proof {
            use_type_invariant(self);
            lemma_keys_are_codes(self.base_code@, entries(self.currencies), code@);
        }
        match map_get(&self.currencies, code) {
            Some(currency) => {
                proof {
                    let pairs = entries(self.currencies);
                    let i = choose|i: int|
                        0 <= i < pairs.len() && #[trigger] pairs[i] == (code@, *currency);
                    assert(self@.currencies[i].code == code@);
                    lemma_place_is_unique(self@, i);
                }
                Ok(currency)
            },
            None => Err(BankError::UnknownCurrency),
        }
    }

    /// Records `rate` as the exchange rate of the currency with exactly the
    /// code `code` and returns that currency as it is afterwards.
    ///
    /// Refused with `UnknownCurrency` where no currency has that code;
    /// otherwise with `ImmutableBaseRate` where it is the base currency,
    /// whatever the rate; otherwise with `InvalidRate` where `rate` is below
    /// zero. A refusal changes nothing.
    pub fn set_rate(&mut self, code: &str, rate: Decimal) -> (outcome: Result<Currency, BankError>)
        ensures
            match old(self)@.rate_set(code@, rate@) {
                Ok(after) => final(self)@ == after && outcome is Ok && outcome->Ok_0@
                    == after.currencies[old(self)@.place(code@)],
                Err(e) => final(self)@ == old(self)@ && outcome == Err::<Currency, BankError>(e),
            },
            final(self)@.valid(),
    {
        proof {
            use_type_invariant(&*self);
            use_type_invariant(&rate);
        }
        let ghost before = self@;
        let ghost pairs = entries(self.currencies);
        proof {
            lemma_keys_are_codes(self.base_code@, pairs, code@);
        }
        let found = match map_get(&self.currencies, code) {
            Some(currency) => currency,
            None => {
                return Err(BankError::UnknownCurrency);
            },
        };
        if found.code == self.base_code {
            return Err(BankError::ImmutableBaseRate);
        }
        if rate.is_negative() {
            return Err(BankError::InvalidRate);
        }
        let ghost at = before.place(code@);
        proof {
            let i = choose|i: int| 0 <= i < pairs.len() && #[trigger] pairs[i] == (code@, *found);
            assert(before.currencies[i].code == code@);
            lemma_place_is_unique(before, i);
            lemma_rate_set_keeps_valid(before, code@, rate@);
            assert forall|i: int| 0 <= i < pairs.len() && i != at implies (#[trigger] pairs[i]).0
                != code@ by {
                lemma_place_is_unique(before, i);
            }
        }
        let mut updated = found.clone();
        updated.exchange_rate = rate;
        write_rate(&mut self.currencies, code, rate, Ghost(at));
        Ok(updated)
    }

    /// Converts `amount` of the currency with exactly the code `from` into
    /// the one with exactly the code `to`: the amount times the rate of
    /// `from`, divided by the rate of `to`, cut towards zero at the sixth
    /// decimal.
    ///
    /// Refused with `UnknownCurrency` where either code is not held;
    /// otherwise with `RateNotSet` where either rate has not been recorded;
    /// otherwise with `InvalidAmount` where the result leaves the
    /// representable range.
    pub fn exchange(&self, amount: Decimal, from: &str, to: &str) -> (outcome: Result<
        Decimal,
        BankError,
    >)
        ensures
            match self@.exchanged(amount@, from@, to@) {
                Ok(converted) => outcome is Ok && outcome->Ok_0@ == converted,
                Err(e) => outcome == Err::<Decimal, BankError>(e),
            },
            self@.valid(),
    {
        let source = match self.find(from) {
            Ok(currency) => currency,
            Err(e) => {
                return Err(e);
            },
        };
        let target = match self.find(to) {
            Ok(currency) => currency,
            Err(e) => {
                return Err(e);
            },
        };
        if source.exchange_rate.is_zero() || target.exchange_rate.is_zero() {
            return Err(BankError::RateNotSet);
        }
        match amount.mul_div(source.exchange_rate, target.exchange_rate) {
            Some(converted) => Ok(converted),
            None => Err(BankError::InvalidAmount),
        }
    }

    /// The currency that `code` names, whatever the case of its letters, or
    /// `UnknownCurrency`.
    pub fn lookup(&self, code: &str) -> (outcome: Result<&Currency, BankError>)
        ensures
            match self@.lookup(code@) {
                Ok(currency) => outcome is Ok && outcome->Ok_0@ == currency,
                Err(e) => outcome == Err::<&Currency, BankError>(e),
            },
            self@.valid(),
    {
        let key = to_upper(code);
        self.find(key.as_str())
    }

    /// The currency that the line `line` names, white space around it set
    /// aside and whatever the case of its letters, or `UnknownCurrency`.
    pub fn lookup_entered(&self, line: &str) -> (outcome: Result<&Currency, BankError>)
        ensures
            match self@.lookup(trimmed(line@)) {
                Ok(currency) => outcome is Ok && outcome->Ok_0@ == currency,
                Err(e) => outcome == Err::<&Currency, BankError>(e),
            },
            self@.valid(),
    {
        self.lookup(trim(line))
    }

    /// Records `rate` as the exchange rate of the currency that `code` names,
    /// whatever the case of its letters, and returns that currency as it is
    /// afterwards.
    ///
    /// Refused with `UnknownCurrency` where no currency has that code;
    /// otherwise with `ImmutableBaseRate` where it is the base currency,
    /// whatever the rate; otherwise with `InvalidRate` where `rate` is below
    /// zero. A refusal changes nothing.
    pub fn record_rate(&mut self, code: &str, rate: Decimal) -> (outcome: Result<
        Currency,
        BankError,
    >)
        ensures
            match old(self)@.record_rate(code@, rate@) {
                Ok(after) => final(self)@ == after && outcome is Ok && outcome->Ok_0@
                    == after.currencies[old(self)@.place(uppercase(code@))],
                Err(e) => final(self)@ == old(self)@ && outcome == Err::<Currency, BankError>(e),
            },
            final(self)@.valid(),
    {
        let key = to_upper(code);
        self.set_rate(key.as_str(), rate)
    }

    /// Converts `amount` of the currency that `from` names into the currency
    /// that `to` names, whatever the case of their letters: the amount times
    /// the rate of `from`, divided by the rate of `to`, cut towards zero at
    /// the sixth decimal.
    ///
    /// Refused with `UnknownCurrency` where either code names no currency;
    /// otherwise with `RateNotSet` where either rate has not been recorded;
    /// otherwise with `InvalidAmount` where the result leaves the
    /// representable range.
    pub fn convert(&self, amount: Decimal, from: &str, to: &str) -> (outcome: Result<
        Decimal,
        BankError,
    >)
        ensures
            match self@.convert(amount@, from@, to@) {
                Ok(converted) => outcome is Ok && outcome->Ok_0@ == converted,
                Err(e) => outcome == Err::<Decimal, BankError>(e),
            },
            self@.valid(),
    {
        let source = to_upper(from);
        let target = to_upper(to);
        self.exchange(amount, source.as_str(), target.as_str())
    }
}

/// Records, for the currency that the line `code` names, the rate that the
/// line `rate` spells, and returns the currency as it is afterwards. White
/// space around either line is set aside.
///
/// Refused with `UnknownCurrency` where no currency has that code; otherwise
/// with `ImmutableBaseRate` where it is the base currency, whatever was
/// entered as the rate; otherwise with `InvalidRate` where `rate` is no
/// decimal number or is below zero. A refusal changes nothing.
pub fn record_exchange_rate(registry: &mut CurrencyRegistry, code: &str, rate: &str) -> (outcome:
    Result<Currency, BankError>)
    ensures
        match old(registry)@.record_entered(code@, rate@) {
            Ok(after) => final(registry)@ == after && outcome is Ok && outcome->Ok_0@
                == after.currencies[old(registry)@.place(uppercase(trimmed(code@)))],
            Err(e) => final(registry)@ == old(registry)@ && outcome == Err::<Currency, BankError>(
                e,
            ),
        },
        final(registry)@.valid(),
{
    proof {
        use_type_invariant(&*registry);
    }
    let key = to_upper(trim(code));
    match registry.find(key.as_str()) {
        Ok(currency) => {
            if currency.code == registry.base_code {
                return Err(BankError::ImmutableBaseRate);
            }
        },
        Err(e) => {
            return Err(e);
        },
    }
    match parse_decimal(trim(rate)) {
        Some(value) => registry.set_rate(key.as_str(), value),
        None => Err(BankError::InvalidRate),
    }
}

/// Converts the amount that the line `amount` spells from the currency that
/// the line `from` names into the one that the line `to` names. White space
/// around each line is set aside.
///
/// Refused with `UnknownCurrency` where `from` or `to` names no currency;
/// otherwise with `InvalidAmount` where `amount` is no decimal number;
/// otherwise with `RateNotSet` where either rate has not been recorded;
/// otherwise with `InvalidAmount` where the result leaves the representable
/// range.
pub fn currency_exchange(
    registry: &CurrencyRegistry,
    from: &str,
    amount: &str,
    to: &str,
) -> (outcome: Result<Decimal, BankError>)
    ensures
        match registry@.convert_entered(from@, amount@, to@) {
            Ok(converted) => outcome is Ok && outcome->Ok_0@ == converted,
            Err(e) => outcome == Err::<Decimal, BankError>(e),
        },
{
    let source = to_upper(trim(from));
    let target = to_upper(trim(to));
    if registry.find(source.as_str()).is_err() || registry.find(target.as_str()).is_err() {
        return Err(BankError::UnknownCurrency);
    }
    match parse_decimal(trim(amount)) {
        Some(value) => registry.exchange(value, source.as_str(), target.as_str()),
        None => Err(BankError::InvalidAmount),
    }
}

/// Writes `rate` into the currency filed under `key`, which is the one at
/// place `at`, and leaves every other pair, and the order of all of them, as
/// it was.
fn write_rate(
    currencies: &mut IndexMap<String, Currency>,
    key: &str,
    rate: Decimal,
    Ghost(at): Ghost<int>,
)
    requires
        0 <= rate@,
        filed_by_code(entries(*old(currencies))),
        0 <= at < entries(*old(currencies)).len(),
        entries(*old(currencies))[at].0 == key@,
        forall|i: int|
            0 <= i < entries(*old(currencies)).len() && i != at ==> (#[trigger] entries(
                *old(currencies),
            )[i]).0 != key@,
    ensures
        filed_by_code(entries(*final(currencies))),
        currency_views(entries(*final(currencies))) == currency_views(
            entries(*old(currencies)),
        ).update(
            at,
            CurrencyView {
                exchange_rate: rate@,
                ..currency_views(entries(*old(currencies)))[at]
            },
        ),
    no_unwind
{
    proof {
        use_type_invariant(&rate);
    }
    let ghost before = entries(*currencies);
    match map_get_mut(currencies, key) {
        Some(currency) => {
            currency.exchange_rate = rate;
        },
        None => {
            assert(before[at].0 == key@);
        },
    }
    proof {
        let after = entries(*currencies);
        assert(after =~= before.update(at, after[at]));
        assert(currency_views(after) =~= currency_views(before).update(
            at,
            CurrencyView { exchange_rate: rate@, ..currency_views(before)[at] },
        ));
    }
}

/// Recording a rate keeps a registry valid: the codes, their order and the
/// base currency with its rate of one stay as they are.
pub proof fn lemma_rate_set_keeps_valid(view: RegistryView, code: Seq<char>, rate: int)
    requires
        view.valid(),
        rate <= LIMIT,
    ensures
        view.rate_set(code, rate) matches Ok(after) ==> {
            &&& after.valid()
            &&& after.base_code == view.base_code
            &&& after.currencies.len() == view.currencies.len()
            &&& forall|i: int|
                0 <= i < view.currencies.len() ==> (#[trigger] after.currencies[i]).code
                    == view.currencies[i].code
            &&& after.found(view.base_code) == view.found(view.base_code)
        },
{
    if let Ok(after) = view.rate_set(code, rate) {
        let base_at = view.place(view.base_code);
        assert(after.currencies[base_at] == view.currencies[base_at]);
        assert(after.holds(after.base_code));
        assert forall|i: int, j: int| 0 <= i < j < after.currencies.len() implies (
        #[trigger] after.currencies[i]).code != (#[trigger] after.currencies[j]).code by {
            assert(view.currencies[i].code != view.currencies[j].code);
        }
        let found = after.place(after.base_code);
        if found < base_at {
            assert(after.currencies[found].code != after.currencies[base_at].code);
        } else if base_at < found {
            assert(after.currencies[base_at].code != after.currencies[found].code);
        }
        assert(after.valid());
    }
}

/// Recording a rate under a code in any case keeps a registry valid, and
/// keeps the base currency as it was.
pub proof fn lemma_record_rate_keeps_valid(view: RegistryView, code: Seq<char>, rate: int)
    requires
        view.valid(),
        rate <= LIMIT,
    ensures
        view.record_rate(code, rate) matches Ok(after) ==> after.valid() && after.found(
            view.base_code,
        ) == view.found(view.base_code),
{
    lemma_rate_set_keeps_valid(view, uppercase(code), rate);
}

/// Recording a rate for the base currency is refused with
/// `ImmutableBaseRate`, whatever the rate and in whatever case the code is
/// written.
pub proof fn lemma_base_rate_is_immutable(view: RegistryView, code: Seq<char>, rate: int)
    requires
        view.valid(),
    ensures
        view.rate_set(view.base_code, rate) == Err::<RegistryView, BankError>(
            BankError::ImmutableBaseRate,
        ),
        uppercase(code) == view.base_code ==> view.record_rate(code, rate) == Err::<
            RegistryView,
            BankError,
        >(BankError::ImmutableBaseRate),
{
}

/// Converting an amount into the currency it is already in gives back the
/// amount, once that currency has a rate.
pub proof fn lemma_convert_to_same_currency(view: RegistryView, amount: int, code: Seq<char>)
    requires
        view.valid(),
        representable(amount),
    ensures
        view.found(code) matches Ok(currency) && currency.exchange_rate != 0 ==> view.exchanged(
            amount,
            code,
            code,
        ) == Ok::<int, BankError>(amount),
        view.lookup(code) matches Ok(currency) && currency.exchange_rate != 0 ==> view.convert(
            amount,
            code,
            code,
        ) == Ok::<int, BankError>(amount),
{
    if view.found(code) is Ok && view.found(code)->Ok_0.exchange_rate != 0 {
        lemma_quotient_undoes_product(amount, view.found(code)->Ok_0.exchange_rate);
    }
    if view.lookup(code) is Ok && view.lookup(code)->Ok_0.exchange_rate != 0 {
        lemma_quotient_undoes_product(amount, view.lookup(code)->Ok_0.exchange_rate);
    }
}

/// Conversion fails with `UnknownCurrency` whenever either code names no
/// currency, whatever the amount and whatever the rates.
pub proof fn lemma_unknown_code_stops_conversion(
    view: RegistryView,
    amount: int,
    from: Seq<char>,
    to: Seq<char>,
    entered: Seq<char>,
)
    ensures
        view.lookup(from) is Err || view.lookup(to) is Err ==> view.convert(amount, from, to)
            == Err::<int, BankError>(BankError::UnknownCurrency),
        view.lookup(trimmed(from)) is Err || view.lookup(trimmed(to)) is Err
            ==> view.convert_entered(from, entered, to) == Err::<int, BankError>(
            BankError::UnknownCurrency,
        ),
{
}

/// Lookup does not tell apart two codes that have the same upper-case form.
pub proof fn lemma_lookup_ignores_case(view: RegistryView, a: Seq<char>, b: Seq<char>)
    ensures
        uppercase(a) == uppercase(b) ==> view.lookup(a) == view.lookup(b),
{
}

} // verus!

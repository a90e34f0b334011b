//! The extraction rules: which markers of a quote page hold which fields, and
//! how a missing marker is absorbed or reported.
use vstd::prelude::*;
use crate::page::{
    attr_within, first_text, opt_view, select_attr_within, select_text, select_text_within,
    text_within, QuotePage,
};

verus! {

/// The region shown on a page for an unknown symbol.
pub const ERROR_MARKER: &'static str = "div.error-container";

/// The heading holding the company name.
pub const NAME_MARKER: &'static str = "h1.yf-4vbjci";

/// The section holding price, change and percent change.
pub const QUOTE_SECTION: &'static str = "section[data-testid='price-statistic']";

pub const PRICE_MARKER: &'static str = "span[data-testid='qsp-price']";

pub const CHANGE_MARKER: &'static str = "span[data-testid='qsp-price-change']";

pub const PERCENT_MARKER: &'static str = "span[data-testid='qsp-price-change-percent']";

/// The after-hours price, looked up anywhere on the page.
pub const AFTER_HOURS_MARKER: &'static str = "span[data-testid='qsp-post-price']";

/// The company description paragraph.
pub const INFORMATION_MARKER: &'static str = "p.yf-1ja4ll8";

/// The region holding the statistics table.
pub const STATISTICS_SECTION: &'static str = "div[data-testid='quote-statistics']";

/// The attribute that carries a statistic's value.
pub const VALUE_ATTRIBUTE: &'static str = "data-value";

/// What a quote field reads when its marker is missing.
pub const NOT_AVAILABLE: &'static str = "N/A";

/// An optional statistic a caller may ask for.
#[derive(Clone, Copy, Debug, PartialEq, Eq, Structural)]
pub enum StatField {
    DayRange,
    WeekRange52,
    MarketCap,
    PeRatio,
    Eps,
}

impl StatField {
    pub open spec fn spec_label(self) -> Seq<char> {
        match self {
            StatField::DayRange => "Day's Range"@,
            StatField::WeekRange52 => "52 Week Range"@,
            StatField::MarketCap => "Market Cap"@,
            StatField::PeRatio => "PE Ratio"@,
            StatField::Eps => "EPS"@,
        }
    }

    pub open spec fn spec_marker(self) -> Seq<char> {
        match self {
            StatField::DayRange => "fin-streamer[data-field='regularMarketDayRange']"@,
            StatField::WeekRange52 => "fin-streamer[data-field='fiftyTwoWeekRange']"@,
            StatField::MarketCap => "fin-streamer[data-field='marketCap']"@,
            StatField::PeRatio => "fin-streamer[data-field='trailingPE']"@,
            StatField::Eps => "fin-streamer[data-field='epsTrailingTwelveMonths']"@,
        }
    }

    /// The label a statistic is shown under.
    pub fn label(self) -> (r: &'static str)
        ensures
            r@ == self.spec_label(),
    {
        match self {
            StatField::DayRange => "Day's Range",
            StatField::WeekRange52 => "52 Week Range",
            StatField::MarketCap => "Market Cap",
            StatField::PeRatio => "PE Ratio",
            StatField::Eps => "EPS",
        }
    }

    /// The marker of the statistic within the statistics region.
    pub fn marker(self) -> (r: &'static str)
        ensures
            r@ == self.spec_marker(),
    {
        match self {
            StatField::DayRange => "fin-streamer[data-field='regularMarketDayRange']",
            StatField::WeekRange52 => "fin-streamer[data-field='fiftyTwoWeekRange']",
            StatField::MarketCap => "fin-streamer[data-field='marketCap']",
            StatField::PeRatio => "fin-streamer[data-field='trailingPE']",
            StatField::Eps => "fin-streamer[data-field='epsTrailingTwelveMonths']",
        }
    }
}

/// One statistic found on the page.
#[derive(Debug)]
pub struct Statistic {
    pub field: StatField,
    pub value: String,
}

/// The fields extracted from a quote page. Values are display text as found.
#[derive(Debug)]
pub struct QuoteFields {
    pub company_name: Option<String>,
    pub price: String,
    pub change: String,
    pub percent_change: String,
    pub after_hours_price: Option<String>,
    pub information: Option<String>,
    pub statistics: Vec<Statistic>,
}

/// Why no fields were extracted.
#[derive(Clone, Copy, Debug, PartialEq, Eq, Structural)]
pub enum ExtractionError {
    /// The page says the symbol does not exist.
    SymbolNotFound,
    /// The quote section is missing: the page no longer has the expected layout.
    LayoutChanged,
}

/// A quote field's text, or the not-available sentinel.
pub open spec fn or_not_available(o: Option<Seq<char>>) -> Seq<char> {
    match o {
        Some(t) => t,
        None => NOT_AVAILABLE@,
    }
}

/// The requested statistics found in the statistics region of `markup`, in the
/// order requested; one that is missing is left out.
pub open spec fn statistics_of(markup: Seq<char>, requested: Seq<StatField>) -> Seq<
    (StatField, Seq<char>),
>
    decreases requested.len(),
{
    if requested.len() == 0 {
        Seq::empty()
    } else {
        let prior = statistics_of(markup, requested.drop_last());
        let f = requested.last();
        match attr_within(markup, STATISTICS_SECTION@, f.spec_marker(), VALUE_ATTRIBUTE@) {
            Some(v) => prior.push((f, v)),
            None => prior,
        }
    }
}

pub open spec fn statistics_view(s: Seq<Statistic>) -> Seq<(StatField, Seq<char>)> {
    s.map_values(|x: Statistic| (x.field, x.value@))
}

/// The page shows the not-found region.
pub open spec fn is_error_markup(markup: Seq<char>) -> bool {
    first_text(markup, ERROR_MARKER@) is Some
}

/// `r` is what extracting from `markup` gives for these requests.
pub open spec fn extracts_to(
    markup: Seq<char>,
    requested: Seq<StatField>,
    information: bool,
    r: &Result<QuoteFields, ExtractionError>,
) -> bool {
    if is_error_markup(markup) {
        r == &Err::<QuoteFields, ExtractionError>(ExtractionError::SymbolNotFound)
    } else if first_text(markup, QUOTE_SECTION@) is None {
        r == &Err::<QuoteFields, ExtractionError>(ExtractionError::LayoutChanged)
    } else {
        &&& r is Ok
        &&& opt_view(r->Ok_0.company_name) == first_text(markup, NAME_MARKER@)
        &&& r->Ok_0.price@ == or_not_available(text_within(markup, QUOTE_SECTION@, PRICE_MARKER@))
        &&& r->Ok_0.change@ == or_not_available(
            text_within(markup, QUOTE_SECTION@, CHANGE_MARKER@),
        )
        &&& r->Ok_0.percent_change@ == or_not_available(
            text_within(markup, QUOTE_SECTION@, PERCENT_MARKER@),
        )
        &&& opt_view(r->Ok_0.after_hours_price) == first_text(markup, AFTER_HOURS_MARKER@)
        &&& opt_view(r->Ok_0.information) == if information {
            first_text(markup, INFORMATION_MARKER@)
        } else {
            None
        }
        &&& statistics_view(r->Ok_0.statistics@) == if first_text(
            markup,
            STATISTICS_SECTION@,
        ) is Some {
            statistics_of(markup, requested)
        } else {
            Seq::empty()
        }
    }
}

fn text_or_not_available(o: Option<String>) -> (r: String)
    ensures
        r@ == or_not_available(opt_view(o)),
{
    match o {
        Some(t) => t,
        None => NOT_AVAILABLE.to_owned(),
    }
}

/// Whether the page is the not-found page.
pub fn is_error_page(page: &QuotePage) -> (r: bool)
    ensures
        r == is_error_markup(page.markup()),
{
    select_text(page, ERROR_MARKER).is_some()
}

/// The requested statistics present in the statistics region, in request order.
pub fn extract_statistics(page: &QuotePage, requested: &Vec<StatField>) -> (r: Vec<Statistic>)
    ensures
        statistics_view(r@) == statistics_of(page.markup(), requested@),
{
    let mut out: Vec<Statistic> = Vec::new();
    let mut i: usize = 0;
    while i < requested.len()
        invariant
            i <= requested.len(),
            statistics_view(out@) == statistics_of(page.markup(), requested@.take(i as int)),
        decreases requested.len() - i,
    {
        let f = requested[i];
        assert(requested@.take(i as int + 1).drop_last() =~= requested@.take(i as int));
        let found = select_attr_within(page, STATISTICS_SECTION, f.marker(), VALUE_ATTRIBUTE);
        match found {
            Some(value) => {
                let ghost before = out@;
                out.push(Statistic { field: f, value });
                assert(statistics_view(out@) =~= statistics_view(before).push(
                    (f, opt_view(found)->0),
                ));
            },
            None => {},
        }
        i = i + 1;
    }
    assert(requested@.take(requested.len() as int) =~= requested@);
    out
}

/// Extracts the quote fields. The not-found page is reported before anything
/// else; a missing quote section is reported as a layout change; within the
/// section a missing field reads as not available; the after-hours price, the
/// company information (only when asked for) and each requested statistic are
/// optional.
pub fn extract(page: &QuotePage, requested: &Vec<StatField>, information: bool) -> (r: Result<
    QuoteFields,
    ExtractionError,
>)
    ensures
        extracts_to(page.markup(), requested@, information, &r),
{
    if is_error_page(page) {
        return Err(ExtractionError::SymbolNotFound);
    }
    if select_text(page, QUOTE_SECTION).is_none() {
        return Err(ExtractionError::LayoutChanged);
    }
    let company_name = select_text(page, NAME_MARKER);
    let price = text_or_not_available(select_text_within(page, QUOTE_SECTION, PRICE_MARKER));
    let change = text_or_not_available(select_text_within(page, QUOTE_SECTION, CHANGE_MARKER));
    let percent_change = text_or_not_available(
        select_text_within(page, QUOTE_SECTION, PERCENT_MARKER),
    );
    let after_hours_price = select_text(page, AFTER_HOURS_MARKER);
    let info = if information {
        select_text(page, INFORMATION_MARKER)
    } else {
        None
    };
    let statistics = if select_text(page, STATISTICS_SECTION).is_some() {
        extract_statistics(page, requested)
    } else {
        let none: Vec<Statistic> = Vec::new();
        assert(statistics_view(none@) =~= Seq::empty());
        none
    };
    let fields = QuoteFields {
        company_name,
        price,
        change,
        percent_change,
        after_hours_price,
        information: info,
        statistics,
    };
    Ok(fields)
}

/// A page with the quote section but no percent-change marker still extracts,
/// with the percent change read as not available.
pub proof fn lemma_missing_percent_degrades(
    markup: Seq<char>,
    requested: Seq<StatField>,
    information: bool,
    r: &Result<QuoteFields, ExtractionError>,
)
    requires
        !is_error_markup(markup),
        first_text(markup, QUOTE_SECTION@) is Some,
        text_within(markup, QUOTE_SECTION@, PERCENT_MARKER@) is None,
        extracts_to(markup, requested, information, r),
    ensures
        r is Ok,
        r->Ok_0.percent_change@ == NOT_AVAILABLE@,
{
}

/// A page with the not-found region is reported as an unknown symbol even when
/// it also holds a quote section.
pub proof fn lemma_error_page_first(
    markup: Seq<char>,
    requested: Seq<StatField>,
    information: bool,
    r: &Result<QuoteFields, ExtractionError>,
)
    requires
        is_error_markup(markup),
        first_text(markup, QUOTE_SECTION@) is Some,
        extracts_to(markup, requested, information, r),
    ensures
        r == &Err::<QuoteFields, ExtractionError>(ExtractionError::SymbolNotFound),
{
}

} // verus!

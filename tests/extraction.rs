use rocks::extract::{extract, is_error_page, ExtractionError, StatField, NOT_AVAILABLE};
use rocks::page::QuotePage;

const FULL_PAGE: &str = r#"<html><body>
<h1 class="yf-4vbjci">Apple Inc. (AAPL)</h1>
<section data-testid="price-statistic">
  <span data-testid="qsp-price">189.84</span>
  <span data-testid="qsp-price-change">+1.23</span>
  <span data-testid="qsp-price-change-percent">(+0.65%)</span>
</section>
<span data-testid="qsp-post-price">190.01</span>
<p class="yf-1ja4ll8">Apple designs <b>phones</b>.</p>
<div data-testid="quote-statistics">
  <fin-streamer data-field="marketCap" data-value="2.9T">2.9T</fin-streamer>
  <fin-streamer data-field="regularMarketDayRange" data-value="187.10 - 190.20">x</fin-streamer>
  <fin-streamer data-field="trailingPE" data-value="29.5">29.5</fin-streamer>
  <fin-streamer data-field="epsTrailingTwelveMonths" data-value="6.43">6.43</fin-streamer>
  <fin-streamer data-field="fiftyTwoWeekRange">no value</fin-streamer>
</div>
</body></html>"#;

#[test]
fn full_page_extracts_every_field() {
    let page = QuotePage::new(FULL_PAGE);
    let f = extract(&page, &vec![], true).unwrap();
    assert_eq!(f.company_name, Some("Apple Inc. (AAPL)".to_string()));
    assert_eq!(f.price, "189.84");
    assert_eq!(f.change, "+1.23");
    assert_eq!(f.percent_change, "(+0.65%)");
    assert_eq!(f.after_hours_price, Some("190.01".to_string()));
    assert_eq!(f.information, Some("Apple designs phones.".to_string()));
    assert!(f.statistics.is_empty());
}

#[test]
fn information_only_when_asked() {
    let page = QuotePage::new(FULL_PAGE);
    let f = extract(&page, &vec![], false).unwrap();
    assert_eq!(f.information, None);
}

#[test]
fn statistics_follow_request_order() {
    let page = QuotePage::new(FULL_PAGE);
    let requested = vec![StatField::MarketCap, StatField::Eps, StatField::DayRange, StatField::PeRatio];
    let f = extract(&page, &requested, false).unwrap();
    let got: Vec<(StatField, String)> =
        f.statistics.iter().map(|s| (s.field, s.value.clone())).collect();
    assert_eq!(
        got,
        vec![
            (StatField::MarketCap, "2.9T".to_string()),
            (StatField::Eps, "6.43".to_string()),
            (StatField::DayRange, "187.10 - 190.20".to_string()),
            (StatField::PeRatio, "29.5".to_string()),
        ]
    );
}

#[test]
fn missing_statistic_is_left_out() {
    let page = QuotePage::new(FULL_PAGE);
    let requested = vec![StatField::WeekRange52, StatField::PeRatio];
    let f = extract(&page, &requested, false).unwrap();
    assert_eq!(f.statistics.len(), 1);
    assert_eq!(f.statistics[0].field, StatField::PeRatio);
    assert_eq!(f.statistics[0].value, "29.5");
}

#[test]
fn no_statistics_region_gives_none() {
    let page = QuotePage::new(
        r#"<section data-testid="price-statistic"><span data-testid="qsp-price">5</span></section>
           <fin-streamer data-field="marketCap" data-value="1B"></fin-streamer>"#,
    );
    let f = extract(&page, &vec![StatField::MarketCap], false).unwrap();
    assert!(f.statistics.is_empty());
}

#[test]
fn missing_percent_reads_not_available() {
    let page = QuotePage::new(
        r#"<html><body><section data-testid="price-statistic">
           <span data-testid="qsp-price">189.84</span>
           <span data-testid="qsp-price-change">+1.23</span>
           </section></body></html>"#,
    );
    let f = extract(&page, &vec![], false).unwrap();
    assert_eq!(f.price, "189.84");
    assert_eq!(f.change, "+1.23");
    assert_eq!(f.percent_change, NOT_AVAILABLE);
    assert_eq!(f.percent_change, "N/A");
    assert_eq!(f.after_hours_price, None);
    assert_eq!(f.company_name, None);
}

#[test]
fn empty_quote_section_degrades_every_field() {
    let page = QuotePage::new(r#"<section data-testid="price-statistic"></section>"#);
    let f = extract(&page, &vec![], false).unwrap();
    assert_eq!(f.price, "N/A");
    assert_eq!(f.change, "N/A");
    assert_eq!(f.percent_change, "N/A");
}

#[test]
fn price_outside_section_is_not_taken() {
    let page = QuotePage::new(
        r#"<span data-testid="qsp-price">1.00</span><section data-testid="price-statistic"></section>"#,
    );
    let f = extract(&page, &vec![], false).unwrap();
    assert_eq!(f.price, "N/A");
}

#[test]
fn error_page_wins_over_quote_section() {
    let page = QuotePage::new(
        r#"<div class="error-container">Not found</div>
           <section data-testid="price-statistic"><span data-testid="qsp-price">1</span></section>"#,
    );
    assert!(is_error_page(&page));
    assert_eq!(extract(&page, &vec![], false).err(), Some(ExtractionError::SymbolNotFound));
}

#[test]
fn forced_unknown_symbol_surfaces_not_found() {
    let page = QuotePage::new(r#"<html><body><div class="error-container">ZZZZ</div></body></html>"#);
    assert_eq!(extract(&page, &vec![], true).err(), Some(ExtractionError::SymbolNotFound));
}

#[test]
fn missing_quote_section_is_layout_change() {
    let page = QuotePage::new("<html><body><p>nothing here</p></body></html>");
    assert!(!is_error_page(&page));
    assert_eq!(extract(&page, &vec![], false).err(), Some(ExtractionError::LayoutChanged));
}

#[test]
fn labels_and_markers() {
    assert_eq!(StatField::DayRange.label(), "Day's Range");
    assert_eq!(StatField::WeekRange52.label(), "52 Week Range");
    assert_eq!(StatField::MarketCap.label(), "Market Cap");
    assert_eq!(StatField::PeRatio.label(), "PE Ratio");
    assert_eq!(StatField::Eps.label(), "EPS");
    assert_eq!(StatField::MarketCap.marker(), "fin-streamer[data-field='marketCap']");
    assert_ne!(StatField::Eps.marker(), StatField::PeRatio.marker());
}

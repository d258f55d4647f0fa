use cryptocompare::{Endpoint, Options, RequestBuilder, BASE_URL};

/// The key/value pairs of the query string of `url`, in order.
fn query_of(url: &str) -> Vec<(String, String)> {
    match url.split_once('?') {
        None => Vec::new(),
        Some((_, q)) => q
            .split('&')
            .map(|kv| {
                let (k, v) = kv.split_once('=').expect("parameter without a value");
                (k.to_string(), v.to_string())
            })
            .collect(),
    }
}

#[test]
fn coin_list_url_has_no_query() {
    let b = RequestBuilder::standard();
    let url = b.build_url(&Endpoint::CoinList, &Options { exchanges: "", try_conversion: true });
    assert_eq!(url, "https://min-api.cryptocompare.com/data/all/coinlist");
}

#[test]
fn price_url_with_options() {
    let b = RequestBuilder::standard();
    let option = Options { exchanges: "Bitfinex", try_conversion: false };
    let url = b.build_url(&Endpoint::Price { fsym: "BTC", tsyms: "USD" }, &option);
    assert_eq!(
        url,
        "https://min-api.cryptocompare.com/data/price?fsym=BTC&tsyms=USD&e=Bitfinex&tryConversion=false"
    );
}

#[test]
fn price_url_with_default_options() {
    let b = RequestBuilder::standard();
    let option = Options { exchanges: "", try_conversion: true };
    let url = b.build_url(&Endpoint::Price { fsym: "BTC", tsyms: "USD" }, &option);
    assert_eq!(url, "https://min-api.cryptocompare.com/data/price?fsym=BTC&tsyms=USD");
}

#[test]
fn price_multi_url() {
    let b = RequestBuilder::standard();
    let option = Options { exchanges: "Bitfinex", try_conversion: false };
    let url = b.build_url(&Endpoint::PriceMulti { fsyms: "IOT", tsyms: "USD,BTC,ETH" }, &option);
    assert_eq!(
        url,
        "https://min-api.cryptocompare.com/data/pricemulti?fsyms=IOT&tsyms=USD,BTC,ETH&e=Bitfinex&tryConversion=false"
    );
}

#[test]
fn price_multi_full_url() {
    let b = RequestBuilder::standard();
    let option = Options { exchanges: "Bitfinex", try_conversion: false };
    let url =
        b.build_url(&Endpoint::PriceMultiFull { fsyms: "IOT", tsyms: "USD,BTC,ETH" }, &option);
    assert_eq!(
        url,
        "https://min-api.cryptocompare.com/data/pricemultifull?fsyms=IOT&tsyms=USD,BTC,ETH&e=Bitfinex&tryConversion=false"
    );
}

#[test]
fn price_historical_url_carries_the_given_timestamp() {
    let b = RequestBuilder::standard();
    let option = Options { exchanges: "Bitfinex", try_conversion: false };
    let url = b.build_url(
        &Endpoint::PriceHistorical { fsym: "IOT", tsyms: "USD,BTC,ETH", ts: 1500000000 },
        &option,
    );
    assert_eq!(
        url,
        "https://min-api.cryptocompare.com/data/pricehistorical?fsym=IOT&tsyms=USD,BTC,ETH&ts=1500000000&e=Bitfinex&tryConversion=false"
    );
}

#[test]
fn negative_timestamp_is_rendered_with_a_sign() {
    let b = RequestBuilder::new("x/".to_string());
    let option = Options { exchanges: "", try_conversion: true };
    let url = b.build_url(
        &Endpoint::PriceHistorical { fsym: "BTC", tsyms: "USD", ts: -5 },
        &option,
    );
    assert_eq!(url, "x/pricehistorical?fsym=BTC&tsyms=USD&ts=-5");
}

#[test]
fn histo_day_url() {
    let b = RequestBuilder::standard();
    let option = Options { exchanges: "Bitfinex", try_conversion: false };
    let url = b.build_url(&Endpoint::HistoDay { fsym: "BTC", tsym: "USD", limit: 3 }, &option);
    assert_eq!(
        url,
        "https://min-api.cryptocompare.com/data/histoday?fsym=BTC&tsym=USD&limit=3&aggregate=1&e=Bitfinex&tryConversion=false"
    );
}

#[test]
fn histo_hour_url() {
    let b = RequestBuilder::standard();
    let option = Options { exchanges: "Bitfinex", try_conversion: false };
    let url = b.build_url(&Endpoint::HistoHour { fsym: "BTC", tsym: "USD", limit: 3 }, &option);
    assert_eq!(
        url,
        "https://min-api.cryptocompare.com/data/histohour?fsym=BTC&tsym=USD&limit=3&aggregate=1&e=Bitfinex&tryConversion=false"
    );
}

#[test]
fn histo_minute_url_round_trips_through_its_query() {
    let b = RequestBuilder::standard();
    let option = Options { exchanges: "Bitfinex", try_conversion: false };
    let url = b.build_url(&Endpoint::HistoMinute { fsym: "BTC", tsym: "USD", limit: 3 }, &option);
    assert_eq!(
        url,
        "https://min-api.cryptocompare.com/data/histominute?fsym=BTC&tsym=USD&limit=3&aggregate=1&e=Bitfinex&tryConversion=false"
    );
    let pairs = query_of(&url);
    let expected = vec![
        ("fsym", "BTC"),
        ("tsym", "USD"),
        ("limit", "3"),
        ("aggregate", "1"),
        ("e", "Bitfinex"),
        ("tryConversion", "false"),
    ];
    // The pairs reproduce the expected set...
    for (k, v) in &expected {
        assert!(pairs.iter().any(|(pk, pv)| pk == k && pv == v));
    }
    assert_eq!(pairs.len(), expected.len());
    // ... and their order is the fixed one.
    for (i, (k, v)) in expected.iter().enumerate() {
        assert_eq!(pairs[i], (k.to_string(), v.to_string()));
    }
}

#[test]
fn empty_exchange_sends_no_exchange_parameter() {
    let b = RequestBuilder::standard();
    let option = Options { exchanges: "", try_conversion: false };
    let url = b.build_url(&Endpoint::HistoDay { fsym: "BTC", tsym: "USD", limit: 0 }, &option);
    let pairs = query_of(&url);
    assert_eq!(pairs.iter().filter(|(k, _)| k == "e").count(), 0);
}

#[test]
fn named_exchange_appears_exactly_once() {
    let b = RequestBuilder::standard();
    let option = Options { exchanges: "Kraken", try_conversion: true };
    let url = b.build_url(&Endpoint::Price { fsym: "BTC", tsyms: "USD" }, &option);
    let pairs = query_of(&url);
    let es: Vec<_> = pairs.iter().filter(|(k, _)| k == "e").collect();
    assert_eq!(es.len(), 1);
    assert_eq!(es[0].1, "Kraken");
}

#[test]
fn conversion_on_sends_no_conversion_parameter() {
    let b = RequestBuilder::standard();
    let option = Options { exchanges: "Bitfinex", try_conversion: true };
    let url = b.build_url(&Endpoint::Price { fsym: "BTC", tsyms: "USD" }, &option);
    let pairs = query_of(&url);
    assert_eq!(pairs.iter().filter(|(k, _)| k == "tryConversion").count(), 0);
}

#[test]
fn conversion_off_appears_exactly_once_as_false() {
    let b = RequestBuilder::standard();
    let option = Options { exchanges: "", try_conversion: false };
    let url = b.build_url(&Endpoint::Price { fsym: "BTC", tsyms: "USD" }, &option);
    let pairs = query_of(&url);
    let tc: Vec<_> = pairs.iter().filter(|(k, _)| k == "tryConversion").collect();
    assert_eq!(tc.len(), 1);
    assert_eq!(tc[0].1, "false");
}

#[test]
fn no_query_key_is_ever_duplicated() {
    let b = RequestBuilder::standard();
    let option = Options { exchanges: "Bitfinex", try_conversion: false };
    let url = b.build_url(
        &Endpoint::HistoMinute { fsym: "BTC", tsym: "USD", limit: 100 },
        &option,
    );
    let pairs = query_of(&url);
    for i in 0..pairs.len() {
        for j in i + 1..pairs.len() {
            assert_ne!(pairs[i].0, pairs[j].0);
        }
    }
}

#[test]
fn decimal_rendering_of_edge_values() {
    assert_eq!(cryptocompare::request::u64_to_string(0), "0");
    assert_eq!(cryptocompare::request::u64_to_string(10), "10");
    assert_eq!(
        cryptocompare::request::u64_to_string(u64::MAX),
        "18446744073709551615"
    );
    assert_eq!(cryptocompare::request::i64_to_string(0), "0");
    assert_eq!(cryptocompare::request::i64_to_string(-42), "-42");
    assert_eq!(
        cryptocompare::request::i64_to_string(i64::MIN),
        "-9223372036854775808"
    );
}

#[test]
fn base_url_constant_points_at_the_service() {
    assert_eq!(BASE_URL, "https://min-api.cryptocompare.com/data/");
}

#[test]
fn custom_base_is_used_verbatim() {
    let b = RequestBuilder::new("http://localhost:8080/data/".to_string());
    let option = Options { exchanges: "", try_conversion: true };
    let url = b.build_url(&Endpoint::Price { fsym: "ETH", tsyms: "BTC" }, &option);
    assert_eq!(url, "http://localhost:8080/data/price?fsym=ETH&tsyms=BTC");
}

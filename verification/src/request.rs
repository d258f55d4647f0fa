//! The request builder: from an endpoint, its parameters and the request
//! options to the full query URL.
//!
//! The query is assembled in a fixed order: the symbol parameters first,
//! then the endpoint-specific parameters, then `e=<exchange>` only when an
//! exchange is named, then `tryConversion=false` only when conversion is
//! turned off. Conversion being on is the server default and is never sent;
//! this inverted condition reproduces the upstream behaviour on purpose.
//! Symbols are substituted as given: escaping characters that are reserved
//! in URLs is the caller's responsibility.

use vstd::prelude::*;

verus! {

/// The fixed address of the market-data API.
pub const BASE_URL: &'static str = "https://min-api.cryptocompare.com/data/";

/// Request options shared by every priced query endpoint.
pub struct Options<'a> {
    /// Exchange the request is directed at; the empty string selects the
    /// server's aggregate over all exchanges.
    pub exchanges: &'a str,
    /// Whether the server may synthesize a price through an intermediate
    /// reference currency when no direct trading pair exists.
    pub try_conversion: bool,
}

/// The mathematical content of a set of request options.
pub ghost struct OptionsView {
    pub exchanges: Seq<char>,
    pub try_conversion: bool,
}

impl<'a> View for Options<'a> {
    type V = OptionsView;

    open spec fn view(&self) -> OptionsView {
        OptionsView { exchanges: self.exchanges@, try_conversion: self.try_conversion }
    }
}

/// One endpoint of the API, with its typed parameters.
///
/// A `ts` is seconds since the epoch, supplied by the caller; the builder
/// itself never reads a clock. A `limit` of zero is a legal request for
/// zero historical rows.
pub enum Endpoint<'a> {
    /// General information about every coin the service knows.
    CoinList,
    /// The latest price of one currency in one or more target currencies.
    Price { fsym: &'a str, tsyms: &'a str },
    /// A matrix of prices for several currencies at once.
    PriceMulti { fsyms: &'a str, tsyms: &'a str },
    /// Full current trading information for several currencies at once.
    PriceMultiFull { fsyms: &'a str, tsyms: &'a str },
    /// The price of a currency at a given moment in the past.
    PriceHistorical { fsym: &'a str, tsyms: &'a str, ts: i64 },
    /// Daily OHLCV history.
    HistoDay { fsym: &'a str, tsym: &'a str, limit: u64 },
    /// Hourly OHLCV history.
    HistoHour { fsym: &'a str, tsym: &'a str, limit: u64 },
    /// Minutely OHLCV history.
    HistoMinute { fsym: &'a str, tsym: &'a str, limit: u64 },
}

/// The mathematical content of an endpoint and its parameters.
pub ghost enum EndpointView {
    CoinList,
    Price { fsym: Seq<char>, tsyms: Seq<char> },
    PriceMulti { fsyms: Seq<char>, tsyms: Seq<char> },
    PriceMultiFull { fsyms: Seq<char>, tsyms: Seq<char> },
    PriceHistorical { fsym: Seq<char>, tsyms: Seq<char>, ts: int },
    HistoDay { fsym: Seq<char>, tsym: Seq<char>, limit: nat },
    HistoHour { fsym: Seq<char>, tsym: Seq<char>, limit: nat },
    HistoMinute { fsym: Seq<char>, tsym: Seq<char>, limit: nat },
}

impl<'a> View for Endpoint<'a> {
    type V = EndpointView;

    open spec fn view(&self) -> EndpointView {
        match *self {
            Endpoint::CoinList => EndpointView::CoinList,
            Endpoint::Price { fsym, tsyms } => EndpointView::Price {
                fsym: fsym@,
                tsyms: tsyms@,
            },
            Endpoint::PriceMulti { fsyms, tsyms } => EndpointView::PriceMulti {
                fsyms: fsyms@,
                tsyms: tsyms@,
            },
            Endpoint::PriceMultiFull { fsyms, tsyms } => EndpointView::PriceMultiFull {
                fsyms: fsyms@,
                tsyms: tsyms@,
            },
            Endpoint::PriceHistorical { fsym, tsyms, ts } => EndpointView::PriceHistorical {
                fsym: fsym@,
                tsyms: tsyms@,
                ts: ts as int,
            },
            Endpoint::HistoDay { fsym, tsym, limit } => EndpointView::HistoDay {
                fsym: fsym@,
                tsym: tsym@,
                limit: limit as nat,
            },
            Endpoint::HistoHour { fsym, tsym, limit } => EndpointView::HistoHour {
                fsym: fsym@,
                tsym: tsym@,
                limit: limit as nat,
            },
            Endpoint::HistoMinute { fsym, tsym, limit } => EndpointView::HistoMinute {
                fsym: fsym@,
                tsym: tsym@,
                limit: limit as nat,
            },
        }
    }
}

/// The decimal digit character for a value below ten.
pub open spec fn spec_digit(d: int) -> char {
    if d == 0 {
        '0'
    } else if d == 1 {
        '1'
    } else if d == 2 {
        '2'
    } else if d == 3 {
        '3'
    } else if d == 4 {
        '4'
    } else if d == 5 {
        '5'
    } else if d == 6 {
        '6'
    } else if d == 7 {
        '7'
    } else if d == 8 {
        '8'
    } else {
        '9'
    }
}

/// The decimal rendering of a natural number, without sign or padding.
pub open spec fn spec_dec_nat(n: nat) -> Seq<char>
    decreases n,
{
    if n < 10 {
        seq![spec_digit(n as int)]
    } else {
        spec_dec_nat(n / 10) + seq![spec_digit((n % 10) as int)]
    }
}

/// The decimal rendering of an integer, with a leading minus sign when it
/// is negative.
pub open spec fn spec_dec_int(i: int) -> Seq<char> {
    if i < 0 {
        seq!['-'] + spec_dec_nat((-i) as nat)
    } else {
        spec_dec_nat(i as nat)
    }
}

/// The character of a single decimal digit, as a borrowed string.
fn digit_str(d: u64) -> (r: &'static str)
    requires
        d < 10,
    ensures
        r@ == seq![spec_digit(d as int)],
{
    proof {
        reveal_strlit("0");
        reveal_strlit("1");
        reveal_strlit("2");
        reveal_strlit("3");
        reveal_strlit("4");
        reveal_strlit("5");
        reveal_strlit("6");
        reveal_strlit("7");
        reveal_strlit("8");
        reveal_strlit("9");
    }
    let r = if d == 0 {
        "0"
    } else if d == 1 {
        "1"
    } else if d == 2 {
        "2"
    } else if d == 3 {
        "3"
    } else if d == 4 {
        "4"
    } else if d == 5 {
        "5"
    } else if d == 6 {
        "6"
    } else if d == 7 {
        "7"
    } else if d == 8 {
        "8"
    } else {
        "9"
    };
    proof {
        assert(r@ =~= seq![spec_digit(d as int)]);
    }
    r
}

/// Append the decimal rendering of `n` to `s`.
fn append_u64(s: &mut String, n: u64)
    ensures
        final(s)@ == old(s)@ + spec_dec_nat(n as nat),
    decreases n,
{
    if n < 10 {
        s.append(digit_str(n));
    } else {
        append_u64(s, n / 10);
        s.append(digit_str(n % 10));
        proof {
            assert((old(s)@ + spec_dec_nat((n / 10) as nat)) + seq![spec_digit((n % 10) as int)]
                =~= old(s)@ + spec_dec_nat(n as nat));
        }
    }
}

/// The decimal rendering of an unsigned number, as a string.
pub fn u64_to_string(n: u64) -> (r: String)
    ensures
        r@ == spec_dec_nat(n as nat),
{
    let mut s = String::new();
    append_u64(&mut s, n);
    proof {
        assert(Seq::<char>::empty() + spec_dec_nat(n as nat) =~= spec_dec_nat(n as nat));
    }
    s
}

/// The decimal rendering of a signed number, as a string.
pub fn i64_to_string(n: i64) -> (r: String)
    ensures
        r@ == spec_dec_int(n as int),
{
    let mut s = String::new();
    if n < 0 {
        s.append("-");
        let mag: u64 = ((-(n + 1)) as u64) + 1;
        append_u64(&mut s, mag);
        proof {
            reveal_strlit("-");
            assert(mag as nat == (-(n as int)) as nat);
            assert((Seq::<char>::empty() + "-"@) + spec_dec_nat(mag as nat) =~= spec_dec_int(
                n as int,
            ));
        }
    } else {
        append_u64(&mut s, n as u64);
        proof {
            assert(Seq::<char>::empty() + spec_dec_nat(n as nat) =~= spec_dec_int(n as int));
        }
    }
    s
}

/// The path segment of an endpoint under the base address.
pub open spec fn path_of(e: EndpointView) -> Seq<char> {
    match e {
        EndpointView::CoinList => "all/coinlist"@,
        EndpointView::Price { .. } => "price"@,
        EndpointView::PriceMulti { .. } => "pricemulti"@,
        EndpointView::PriceMultiFull { .. } => "pricemultifull"@,
        EndpointView::PriceHistorical { .. } => "pricehistorical"@,
        EndpointView::HistoDay { .. } => "histoday"@,
        EndpointView::HistoHour { .. } => "histohour"@,
        EndpointView::HistoMinute { .. } => "histominute"@,
    }
}

/// The query parameters an endpoint itself contributes, in their fixed
/// order, before the option parameters.
pub open spec fn endpoint_pairs(e: EndpointView) -> Seq<(Seq<char>, Seq<char>)> {
    match e {
        EndpointView::CoinList => Seq::<(Seq<char>, Seq<char>)>::empty(),
        EndpointView::Price { fsym, tsyms } => seq![("fsym"@, fsym), ("tsyms"@, tsyms)],
        EndpointView::PriceMulti { fsyms, tsyms } => seq![("fsyms"@, fsyms), ("tsyms"@, tsyms)],
        EndpointView::PriceMultiFull { fsyms, tsyms } => seq![
            ("fsyms"@, fsyms),
            ("tsyms"@, tsyms),
        ],
        EndpointView::PriceHistorical { fsym, tsyms, ts } => seq![
            ("fsym"@, fsym),
            ("tsyms"@, tsyms),
            ("ts"@, spec_dec_int(ts)),
        ],
        EndpointView::HistoDay { fsym, tsym, limit } => seq![
            ("fsym"@, fsym),
            ("tsym"@, tsym),
            ("limit"@, spec_dec_nat(limit)),
            ("aggregate"@, "1"@),
        ],
        EndpointView::HistoHour { fsym, tsym, limit } => seq![
            ("fsym"@, fsym),
            ("tsym"@, tsym),
            ("limit"@, spec_dec_nat(limit)),
            ("aggregate"@, "1"@),
        ],
        EndpointView::HistoMinute { fsym, tsym, limit } => seq![
            ("fsym"@, fsym),
            ("tsym"@, tsym),
            ("limit"@, spec_dec_nat(limit)),
            ("aggregate"@, "1"@),
        ],
    }
}

/// The query parameters the request options contribute: the exchange only
/// when one is named, and `tryConversion=false` only when conversion is
/// turned off.
pub open spec fn option_pairs(o: OptionsView) -> Seq<(Seq<char>, Seq<char>)> {
    (if o.exchanges.len() > 0 {
        seq![("e"@, o.exchanges)]
    } else {
        Seq::<(Seq<char>, Seq<char>)>::empty()
    }) + (if !o.try_conversion {
        seq![("tryConversion"@, "false"@)]
    } else {
        Seq::<(Seq<char>, Seq<char>)>::empty()
    })
}

/// The whole ordered query of a request. The coin-list endpoint takes no
/// parameters at all, the options included.
pub open spec fn query_pairs(e: EndpointView, o: OptionsView) -> Seq<(Seq<char>, Seq<char>)> {
    match e {
        EndpointView::CoinList => Seq::<(Seq<char>, Seq<char>)>::empty(),
        _ => endpoint_pairs(e) + option_pairs(o),
    }
}

/// One `key=value` fragment of a query string.
pub open spec fn render_pair(p: (Seq<char>, Seq<char>)) -> Seq<char> {
    p.0 + "="@ + p.1
}

/// The `key=value` fragments of a query joined by `&`.
pub open spec fn render_pairs(ps: Seq<(Seq<char>, Seq<char>)>) -> Seq<char>
    decreases ps.len(),
{
    if ps.len() == 0 {
        Seq::<char>::empty()
    } else if ps.len() == 1 {
        render_pair(ps[0])
    } else {
        render_pairs(ps.drop_last()) + "&"@ + render_pair(ps.last())
    }
}

/// The full URL of a request: the base address, the path, and, unless the
/// query is empty, a `?` and the rendered query.
pub open spec fn spec_url(base: Seq<char>, e: EndpointView, o: OptionsView) -> Seq<char> {
    if query_pairs(e, o).len() == 0 {
        base + path_of(e)
    } else {
        base + path_of(e) + "?"@ + render_pairs(query_pairs(e, o))
    }
}

/// The views of a list of key/value parameters.
pub open spec fn pair_views(ps: Seq<(&str, String)>) -> Seq<(Seq<char>, Seq<char>)> {
    ps.map_values(|p: (&str, String)| (p.0@, p.1@))
}

/// Rendering one more pair appends a separator and that pair's fragment.
proof fn lemma_render_snoc(ps: Seq<(Seq<char>, Seq<char>)>, p: (Seq<char>, Seq<char>))
    requires
        ps.len() >= 1,
    ensures
        render_pairs(ps.push(p)) == render_pairs(ps) + "&"@ + render_pair(p),
{
    assert(ps.push(p).drop_last() =~= ps);
    assert(ps.push(p).last() == p);
}

impl<'a> Endpoint<'a> {
    /// The path segment of this endpoint under the base address.
    pub fn path(&self) -> (r: &'static str)
        ensures
            r@ == path_of(self@),
    {
        match *self {
            Endpoint::CoinList => "all/coinlist",
            Endpoint::Price { .. } => "price",
            Endpoint::PriceMulti { .. } => "pricemulti",
            Endpoint::PriceMultiFull { .. } => "pricemultifull",
            Endpoint::PriceHistorical { .. } => "pricehistorical",
            Endpoint::HistoDay { .. } => "histoday",
            Endpoint::HistoHour { .. } => "histohour",
            Endpoint::HistoMinute { .. } => "histominute",
        }
    }

    /// The ordered query parameters of a request to this endpoint under
    /// the given options.
    pub fn query_params(&self, options: &Options) -> (r: Vec<(&'static str, String)>)
        ensures
            pair_views(r@) == query_pairs(self@, options@),
    {
        let mut v: Vec<(&'static str, String)> = Vec::new();
        match *self {
            Endpoint::CoinList => {
                proof {
                    assert(pair_views(v@) =~= query_pairs(self@, options@));
                }
                v
            },
            Endpoint::Price { fsym, tsyms } => {
                v.push(("fsym", fsym.to_owned()));
                v.push(("tsyms", tsyms.to_owned()));
                proof {
                    assert(pair_views(v@) =~= endpoint_pairs(self@));
                }
                push_option_pairs(&mut v, options);
                v
            },
            Endpoint::PriceMulti { fsyms, tsyms } => {
                v.push(("fsyms", fsyms.to_owned()));
                v.push(("tsyms", tsyms.to_owned()));
                proof {
                    assert(pair_views(v@) =~= endpoint_pairs(self@));
                }
                push_option_pairs(&mut v, options);
                v
            },
            Endpoint::PriceMultiFull { fsyms, tsyms } => {
                v.push(("fsyms", fsyms.to_owned()));
                v.push(("tsyms", tsyms.to_owned()));
                proof {
                    assert(pair_views(v@) =~= endpoint_pairs(self@));
                }
                push_option_pairs(&mut v, options);
                v
            },
            Endpoint::PriceHistorical { fsym, tsyms, ts } => {
                v.push(("fsym", fsym.to_owned()));
                v.push(("tsyms", tsyms.to_owned()));
                v.push(("ts", i64_to_string(ts)));
                proof {
                    assert(pair_views(v@) =~= endpoint_pairs(self@));
                }
                push_option_pairs(&mut v, options);
                v
            },
            Endpoint::HistoDay { fsym, tsym, limit } => {
                v.push(("fsym", fsym.to_owned()));
                v.push(("tsym", tsym.to_owned()));
                v.push(("limit", u64_to_string(limit)));
                v.push(("aggregate", "1".to_owned()));
                proof {
                    assert(pair_views(v@) =~= endpoint_pairs(self@));
                }
                push_option_pairs(&mut v, options);
                v
            },
            Endpoint::HistoHour { fsym, tsym, limit } => {
                v.push(("fsym", fsym.to_owned()));
                v.push(("tsym", tsym.to_owned()));
                v.push(("limit", u64_to_string(limit)));
                v.push(("aggregate", "1".to_owned()));
                proof {
                    assert(pair_views(v@) =~= endpoint_pairs(self@));
                }
                push_option_pairs(&mut v, options);
                v
            },
            Endpoint::HistoMinute { fsym, tsym, limit } => {
                v.push(("fsym", fsym.to_owned()));
                v.push(("tsym", tsym.to_owned()));
                v.push(("limit", u64_to_string(limit)));
                v.push(("aggregate", "1".to_owned()));
                proof {
                    assert(pair_views(v@) =~= endpoint_pairs(self@));
                }
                push_option_pairs(&mut v, options);
                v
            },
        }
    }
}

/// Push the parameters the options contribute, in their fixed order.
fn push_option_pairs(v: &mut Vec<(&'static str, String)>, options: &Options)
    ensures
        pair_views(final(v)@) == pair_views(old(v)@) + option_pairs(options@),
{
    if !options.exchanges.is_empty() {
        v.push(("e", options.exchanges.to_owned()));
    }
    if !options.try_conversion {
        v.push(("tryConversion", "false".to_owned()));
    }
    proof {
        assert(pair_views(v@) =~= pair_views(old(v)@) + option_pairs(options@));
    }
}

/// Render the query parameters as `key=value` fragments joined by `&`.
fn render_query(pairs: &Vec<(&'static str, String)>) -> (r: String)
    ensures
        r@ == render_pairs(pair_views(pairs@)),
{
    let mut r = String::new();
    let mut i: usize = 0;
    while i < pairs.len()
        invariant
            0 <= i <= pairs@.len(),
            r@ == render_pairs(pair_views(pairs@).take(i as int)),
        decreases pairs@.len() - i,
    {
        let p = &pairs[i];
        if i > 0 {
            r.append("&");
        }
        r.append(p.0);
        r.append("=");
        r.append(p.1.as_str());
        proof {
            let pv = pair_views(pairs@);
            assert(pv[i as int] == ((p.0)@, (p.1)@));
            if i == 0 {
                assert(pv.take(1).len() == 1);
                assert(pv.take(1)[0] == pv[0]);
                assert(r@ =~= render_pairs(pv.take(1)));
            } else {
                lemma_render_snoc(pv.take(i as int), pv[i as int]);
                assert(pv.take(i as int).push(pv[i as int]) =~= pv.take(i as int + 1));
                assert(r@ =~= render_pairs(pv.take(i as int + 1)));
            }
        }
        i = i + 1;
    }
    proof {
        assert(pair_views(pairs@).take(pairs@.len() as int) =~= pair_views(pairs@));
    }
    r
}

/// Builds request URLs against a fixed base address.
///
/// The base is injected at construction so that a caller can point the
/// builder at a substitute service; [`RequestBuilder::standard`] uses the
/// public address of the live one.
pub struct RequestBuilder {
    /// The address every produced URL starts with.
    pub base: String,
}

impl RequestBuilder {
    /// A builder against the given base address.
    pub fn new(base: String) -> (r: RequestBuilder)
        ensures
            r.base == base,
    {
        RequestBuilder { base }
    }

    /// A builder against the fixed public address of the service.
    pub fn standard() -> (r: RequestBuilder)
        ensures
            r.base@ == BASE_URL@,
    {
        RequestBuilder { base: BASE_URL.to_owned() }
    }

    /// The full URL of a request to `endpoint` under `options`.
    pub fn build_url(&self, endpoint: &Endpoint, options: &Options) -> (r: String)
        ensures
            r@ == spec_url(self.base@, endpoint@, options@),
    {
        let mut url = self.base.clone();
        url.append(endpoint.path());
        let pairs = endpoint.query_params(options);
        if pairs.len() > 0 {
            url.append("?");
            let q = render_query(&pairs);
            url.append(q.as_str());
            proof {
                assert(pair_views(pairs@).len() == pairs@.len());
                assert(url@ =~= spec_url(self.base@, endpoint@, options@));
            }
        } else {
            proof {
                assert(pair_views(pairs@).len() == 0);
                assert(url@ =~= spec_url(self.base@, endpoint@, options@));
            }
        }
        url
    }
}

/// Whether `c` occurs nowhere in `s`.
pub open spec fn char_free(s: Seq<char>, c: char) -> bool {
    forall|i: int| 0 <= i < s.len() ==> s[i] != c
}

/// The fragments of `s` between occurrences of `&`: one more fragment than
/// there are separators, empty fragments kept.
pub open spec fn split_amp(s: Seq<char>) -> Seq<Seq<char>>
    decreases s.len(),
{
    if s.len() == 0 {
        seq![Seq::<char>::empty()]
    } else if s[0] == '&' {
        seq![Seq::<char>::empty()] + split_amp(s.drop_first())
    } else {
        let rest = split_amp(s.drop_first());
        seq![seq![s[0]] + rest[0]] + rest.drop_first()
    }
}

/// A `key=value` fragment taken apart at its first `=`; a fragment without
/// one is all key.
pub open spec fn split_eq(f: Seq<char>) -> (Seq<char>, Seq<char>)
    decreases f.len(),
{
    if f.len() == 0 {
        (Seq::<char>::empty(), Seq::<char>::empty())
    } else if f[0] == '=' {
        (Seq::<char>::empty(), f.drop_first())
    } else {
        let r = split_eq(f.drop_first());
        (seq![f[0]] + r.0, r.1)
    }
}

/// A query string taken apart into its key/value pairs.
pub open spec fn parse_query(s: Seq<char>) -> Seq<(Seq<char>, Seq<char>)> {
    split_amp(s).map_values(|f: Seq<char>| split_eq(f))
}

/// Splitting keeps at least one fragment.
proof fn lemma_split_amp_len(s: Seq<char>)
    ensures
        split_amp(s).len() >= 1,
    decreases s.len(),
{
    if s.len() > 0 {
        lemma_split_amp_len(s.drop_first());
    }
}

/// A separator-free string is one single fragment.
proof fn lemma_split_amp_whole(a: Seq<char>)
    requires
        char_free(a, '&'),
    ensures
        split_amp(a) == seq![a],
    decreases a.len(),
{
    if a.len() == 0 {
        assert(split_amp(a) =~~= seq![a]);
    } else {
        assert(a[0] != '&');
        lemma_split_amp_whole(a.drop_first());
        let rest = split_amp(a.drop_first());
        assert(rest == seq![a.drop_first()]);
        assert(rest[0] == a.drop_first());
        assert(rest.drop_first() =~= Seq::<Seq<char>>::empty());
        assert(seq![a[0]] + rest[0] =~= a);
        assert(split_amp(a) == seq![seq![a[0]] + rest[0]] + rest.drop_first());
        assert(split_amp(a) =~~= seq![a]);
    }
}

/// The first separator cuts off exactly the separator-free prefix.
proof fn lemma_split_amp_cons(a: Seq<char>, b: Seq<char>)
    requires
        char_free(a, '&'),
    ensures
        split_amp(a + seq!['&'] + b) == seq![a] + split_amp(b),
    decreases a.len(),
{
    let s = a + seq!['&'] + b;
    if a.len() == 0 {
        assert(s[0] == '&');
        assert(s.drop_first() =~= b);
        assert(split_amp(s) =~~= seq![a] + split_amp(b));
    } else {
        assert(s[0] == a[0]);
        assert(a[0] != '&');
        assert(s.drop_first() =~= a.drop_first() + seq!['&'] + b);
        lemma_split_amp_cons(a.drop_first(), b);
        let rest = split_amp(s.drop_first());
        assert(rest == seq![a.drop_first()] + split_amp(b));
        assert(rest[0] == a.drop_first());
        assert(rest.drop_first() =~= split_amp(b));
        assert(seq![a[0]] + rest[0] =~= a);
        assert(split_amp(s) == seq![seq![a[0]] + rest[0]] + rest.drop_first());
        assert(split_amp(s) =~~= seq![a] + split_amp(b));
    }
}

/// The first `=` of a fragment with an `=`-free key separates key from
/// value exactly.
proof fn lemma_split_eq_pair(k: Seq<char>, v: Seq<char>)
    requires
        char_free(k, '='),
    ensures
        split_eq(k + seq!['='] + v) == (k, v),
    decreases k.len(),
{
    let f = k + seq!['='] + v;
    if k.len() == 0 {
        assert(f[0] == '=');
        assert(f.drop_first() =~= v);
        assert(split_eq(f) =~~= (k, v));
    } else {
        assert(f[0] == k[0]);
        assert(f.drop_first() =~= k.drop_first() + seq!['='] + v);
        lemma_split_eq_pair(k.drop_first(), v);
        assert(seq![k[0]] + k.drop_first() =~= k);
        assert(split_eq(f) =~~= (k, v));
    }
}

/// A fragment rendered from separator-free components is separator-free.
proof fn lemma_render_pair_amp_free(p: (Seq<char>, Seq<char>))
    requires
        char_free(p.0, '&'),
        char_free(p.1, '&'),
    ensures
        char_free(render_pair(p), '&'),
{
    reveal_strlit("=");
    assert("="@ =~= seq!['=']);
    assert forall|i: int| 0 <= i < render_pair(p).len() implies render_pair(p)[i] != '&' by {
        if i < p.0.len() {
            assert(render_pair(p)[i] == p.0[i]);
        } else if i == p.0.len() {
            assert(render_pair(p)[i] == '=');
        } else {
            assert(render_pair(p)[i] == p.1[i - p.0.len() - 1]);
        }
    }
}

/// A rendered query read from the front: the first fragment, a separator,
/// and the rest of the query.
proof fn lemma_render_cons(ps: Seq<(Seq<char>, Seq<char>)>)
    requires
        ps.len() >= 2,
    ensures
        render_pairs(ps) == render_pair(ps[0]) + "&"@ + render_pairs(ps.drop_first()),
    decreases ps.len(),
{
    if ps.len() == 2 {
        assert(ps.drop_last() =~= seq![ps[0]]);
        assert(ps.drop_first() =~= seq![ps[1]]);
        assert(render_pairs(seq![ps[0]]) == render_pair(ps[0]));
        assert(render_pairs(seq![ps[1]]) == render_pair(ps[1]));
        assert(render_pairs(ps) =~= render_pair(ps[0]) + "&"@ + render_pairs(ps.drop_first()));
    } else {
        lemma_render_cons(ps.drop_last());
        assert(ps.drop_last()[0] == ps[0]);
        assert(ps.drop_last().drop_first() =~= ps.drop_first().drop_last());
        assert(ps.drop_first().last() == ps.last());
        assert(ps.drop_first().len() >= 2);
        assert(render_pairs(ps) == render_pairs(ps.drop_last()) + "&"@ + render_pair(ps.last()));
        assert(render_pairs(ps.drop_first()) == render_pairs(ps.drop_first().drop_last()) + "&"@
            + render_pair(ps.drop_first().last()));
        assert(render_pairs(ps) =~= render_pair(ps[0]) + "&"@ + render_pairs(ps.drop_first()));
    }
}

/// Splitting a rendered query on `&` recovers the fragments, in order.
proof fn lemma_split_render(ps: Seq<(Seq<char>, Seq<char>)>)
    requires
        ps.len() >= 1,
        forall|i: int|
            0 <= i < ps.len() ==> char_free((#[trigger] ps[i]).0, '&') && char_free(ps[i].1, '&'),
    ensures
        split_amp(render_pairs(ps)) == ps.map_values(|p: (Seq<char>, Seq<char>)| render_pair(p)),
    decreases ps.len(),
{
    reveal_strlit("&");
    assert("&"@ =~= seq!['&']);
    lemma_render_pair_amp_free(ps[0]);
    if ps.len() == 1 {
        lemma_split_amp_whole(render_pair(ps[0]));
        assert(split_amp(render_pairs(ps)) =~~= ps.map_values(
            |p: (Seq<char>, Seq<char>)| render_pair(p),
        ));
    } else {
        lemma_render_cons(ps);
        assert(render_pair(ps[0]) + "&"@ + render_pairs(ps.drop_first()) =~= render_pair(ps[0])
            + seq!['&'] + render_pairs(ps.drop_first()));
        lemma_split_amp_cons(render_pair(ps[0]), render_pairs(ps.drop_first()));
        lemma_split_render(ps.drop_first());
        assert(ps.drop_first().map_values(|p: (Seq<char>, Seq<char>)| render_pair(p)) =~~= ps
            .map_values(|p: (Seq<char>, Seq<char>)| render_pair(p)).drop_first());
        assert(split_amp(render_pairs(ps)) =~~= ps.map_values(
            |p: (Seq<char>, Seq<char>)| render_pair(p),
        ));
    }
}

/// Law: a query rendered from parameters whose keys hold no `&` or `=`
/// and whose values hold no `&` parses back into exactly those key/value
/// pairs, in order. Together with the key laws above, the built URL names
/// every supplied parameter exactly once and nothing else.
pub proof fn lemma_query_round_trip(ps: Seq<(Seq<char>, Seq<char>)>)
    requires
        ps.len() >= 1,
        forall|i: int|
            0 <= i < ps.len() ==> char_free((#[trigger] ps[i]).0, '&') && char_free(ps[i].0, '=')
                && char_free(ps[i].1, '&'),
    ensures
        parse_query(render_pairs(ps)) == ps,
{
    reveal_strlit("=");
    assert("="@ =~= seq!['=']);
    lemma_split_render(ps);
    assert forall|i: int| 0 <= i < ps.len() implies split_eq(render_pair(ps[i])) == ps[i] by {
        assert(render_pair(ps[i]) =~= ps[i].0 + seq!['='] + ps[i].1);
        lemma_split_eq_pair(ps[i].0, ps[i].1);
    }
    assert(parse_query(render_pairs(ps)) =~~= ps);
}

/// The lengths and leading characters of the parameter keys, which make
/// every pair of distinct keys provably unequal.
proof fn lemma_reveal_keys()
    ensures
        "fsym"@.len() == 4,
        "tsym"@.len() == 4,
        "fsyms"@.len() == 5,
        "tsyms"@.len() == 5,
        "ts"@.len() == 2,
        "limit"@.len() == 5,
        "aggregate"@.len() == 9,
        "e"@.len() == 1,
        "tryConversion"@.len() == 13,
        "fsym"@[0] == 'f',
        "tsym"@[0] == 't',
        "fsyms"@[0] == 'f',
        "tsyms"@[0] == 't',
        "limit"@[0] == 'l',
{
    reveal_strlit("fsym");
    reveal_strlit("tsym");
    reveal_strlit("fsyms");
    reveal_strlit("tsyms");
    reveal_strlit("ts");
    reveal_strlit("limit");
    reveal_strlit("aggregate");
    reveal_strlit("e");
    reveal_strlit("tryConversion");
}

/// The endpoint part of the query, concretely: its length and keys per
/// endpoint, and that no endpoint key is an option key.
proof fn lemma_endpoint_keys(e: EndpointView)
    requires
        !(e is CoinList),
    ensures
        2 <= endpoint_pairs(e).len() <= 4,
        forall|i: int, j: int|
            0 <= i < j < endpoint_pairs(e).len() ==> (#[trigger] endpoint_pairs(e)[i]).0 != (
            #[trigger] endpoint_pairs(e)[j]).0,
        forall|i: int|
            0 <= i < endpoint_pairs(e).len() ==> (#[trigger] endpoint_pairs(e)[i]).0 != "e"@ && (
            endpoint_pairs(e)[i]).0 != "tryConversion"@,
{
    lemma_reveal_keys();
    match e {
        EndpointView::CoinList => {},
        EndpointView::Price { .. } => {
            assert(endpoint_pairs(e)[0].0 == "fsym"@);
            assert(endpoint_pairs(e)[1].0 == "tsyms"@);
        },
        EndpointView::PriceMulti { .. } => {
            assert(endpoint_pairs(e)[0].0 == "fsyms"@);
            assert(endpoint_pairs(e)[1].0 == "tsyms"@);
        },
        EndpointView::PriceMultiFull { .. } => {
            assert(endpoint_pairs(e)[0].0 == "fsyms"@);
            assert(endpoint_pairs(e)[1].0 == "tsyms"@);
        },
        EndpointView::PriceHistorical { .. } => {
            assert(endpoint_pairs(e)[0].0 == "fsym"@);
            assert(endpoint_pairs(e)[1].0 == "tsyms"@);
            assert(endpoint_pairs(e)[2].0 == "ts"@);
        },
        EndpointView::HistoDay { .. } => {
            assert(endpoint_pairs(e)[0].0 == "fsym"@);
            assert(endpoint_pairs(e)[1].0 == "tsym"@);
            assert(endpoint_pairs(e)[2].0 == "limit"@);
            assert(endpoint_pairs(e)[3].0 == "aggregate"@);
        },
        EndpointView::HistoHour { .. } => {
            assert(endpoint_pairs(e)[0].0 == "fsym"@);
            assert(endpoint_pairs(e)[1].0 == "tsym"@);
            assert(endpoint_pairs(e)[2].0 == "limit"@);
            assert(endpoint_pairs(e)[3].0 == "aggregate"@);
        },
        EndpointView::HistoMinute { .. } => {
            assert(endpoint_pairs(e)[0].0 == "fsym"@);
            assert(endpoint_pairs(e)[1].0 == "tsym"@);
            assert(endpoint_pairs(e)[2].0 == "limit"@);
            assert(endpoint_pairs(e)[3].0 == "aggregate"@);
        },
    }
}

/// Law: the query of a parameterised endpoint is the endpoint's own
/// parameters, in their fixed order, followed by the option parameters;
/// no parameter stands anywhere else.
pub proof fn lemma_query_fixed_order(e: EndpointView, o: OptionsView)
    requires
        !(e is CoinList),
    ensures
        query_pairs(e, o).take(endpoint_pairs(e).len() as int) == endpoint_pairs(e),
        query_pairs(e, o).skip(endpoint_pairs(e).len() as int) == option_pairs(o),
{
    assert(query_pairs(e, o).take(endpoint_pairs(e).len() as int) =~= endpoint_pairs(e));
    assert(query_pairs(e, o).skip(endpoint_pairs(e).len() as int) =~= option_pairs(o));
}

/// Law: no parameter key occurs twice in any query, so the built URL
/// carries every supplied parameter exactly once.
pub proof fn lemma_query_keys_distinct(e: EndpointView, o: OptionsView)
    requires
        !(e is CoinList),
    ensures
        forall|i: int, j: int|
            0 <= i < j < query_pairs(e, o).len() ==> (#[trigger] query_pairs(e, o)[i]).0 != (
            #[trigger] query_pairs(e, o)[j]).0,
{
    lemma_reveal_keys();
    lemma_endpoint_keys(e);
    let ep = endpoint_pairs(e);
    let op = option_pairs(o);
    let q = query_pairs(e, o);
    assert forall|i: int, j: int| 0 <= i < j < q.len() implies (q[i]).0 != (q[j]).0 by {
        assert(q[i] == (if i < ep.len() {
            ep[i]
        } else {
            op[i - ep.len()]
        }));
        assert(q[j] == (if j < ep.len() {
            ep[j]
        } else {
            op[j - ep.len()]
        }));
        if j >= ep.len() {
            if o.exchanges.len() > 0 {
                assert(op[0].0 == "e"@);
            }
            if !o.try_conversion {
                assert(op[op.len() - 1].0 == "tryConversion"@);
            }
        }
    }
}

/// Law: an empty exchange option leaves the query without an `e`
/// parameter; a named exchange contributes exactly one `e` parameter, and
/// its value is the exchange.
pub proof fn lemma_exchange_parameter(e: EndpointView, o: OptionsView)
    requires
        !(e is CoinList),
    ensures
        o.exchanges.len() == 0 ==> forall|i: int|
            0 <= i < query_pairs(e, o).len() ==> (#[trigger] query_pairs(e, o)[i]).0 != "e"@,
        o.exchanges.len() > 0 ==> exists|i: int|
            0 <= i < query_pairs(e, o).len() && #[trigger] query_pairs(e, o)[i] == (
            "e"@,
            o.exchanges,
            ),
        o.exchanges.len() > 0 ==> forall|i: int, j: int|
            0 <= i < query_pairs(e, o).len() && 0 <= j < query_pairs(e, o).len() && (
            #[trigger] query_pairs(e, o)[i]).0 == "e"@ && (#[trigger] query_pairs(e, o)[j]).0
                == "e"@ ==> i == j,
{
    lemma_reveal_keys();
    lemma_endpoint_keys(e);
    let ep = endpoint_pairs(e);
    let op = option_pairs(o);
    let q = query_pairs(e, o);
    if o.exchanges.len() > 0 {
        assert(q[ep.len() as int] == ("e"@, o.exchanges));
        assert forall|i: int, j: int|
            0 <= i < q.len() && 0 <= j < q.len() && (q[i]).0 == "e"@ && (q[j]).0 == "e"@ implies i
            == j by {
            assert(q[i] == (if i < ep.len() {
                ep[i]
            } else {
                op[i - ep.len()]
            }));
            assert(q[j] == (if j < ep.len() {
                ep[j]
            } else {
                op[j - ep.len()]
            }));
            if !o.try_conversion {
                assert(op[op.len() - 1].0 == "tryConversion"@);
            }
        }
    } else {
        assert forall|i: int| 0 <= i < q.len() implies (q[i]).0 != "e"@ by {
            assert(q[i] == (if i < ep.len() {
                ep[i]
            } else {
                op[i - ep.len()]
            }));
            if i >= ep.len() {
                assert(op[0].0 == "tryConversion"@);
            }
        }
    }
}

/// Law: conversion left on (the server default) leaves the query without
/// a `tryConversion` parameter; conversion turned off contributes exactly
/// one `tryConversion=false` parameter.
pub proof fn lemma_try_conversion_parameter(e: EndpointView, o: OptionsView)
    requires
        !(e is CoinList),
    ensures
        o.try_conversion ==> forall|i: int|
            0 <= i < query_pairs(e, o).len() ==> (#[trigger] query_pairs(e, o)[i]).0
                != "tryConversion"@,
        !o.try_conversion ==> exists|i: int|
            0 <= i < query_pairs(e, o).len() && #[trigger] query_pairs(e, o)[i] == (
            "tryConversion"@,
            "false"@,
            ),
        !o.try_conversion ==> forall|i: int, j: int|
            0 <= i < query_pairs(e, o).len() && 0 <= j < query_pairs(e, o).len() && (
            #[trigger] query_pairs(e, o)[i]).0 == "tryConversion"@ && (#[trigger] query_pairs(
                e,
                o,
            )[j]).0 == "tryConversion"@ ==> i == j,
{
    lemma_reveal_keys();
    lemma_endpoint_keys(e);
    let ep = endpoint_pairs(e);
    let op = option_pairs(o);
    let q = query_pairs(e, o);
    if !o.try_conversion {
        assert(q[q.len() - 1] == ("tryConversion"@, "false"@));
        assert forall|i: int, j: int|
            0 <= i < q.len() && 0 <= j < q.len() && (q[i]).0 == "tryConversion"@ && (q[j]).0
                == "tryConversion"@ implies i == j by {
            assert(q[i] == (if i < ep.len() {
                ep[i]
            } else {
                op[i - ep.len()]
            }));
            assert(q[j] == (if j < ep.len() {
                ep[j]
            } else {
                op[j - ep.len()]
            }));
            if o.exchanges.len() > 0 {
                assert(op[0].0 == "e"@);
            }
        }
    } else {
        assert forall|i: int| 0 <= i < q.len() implies (q[i]).0 != "tryConversion"@ by {
            assert(q[i] == (if i < ep.len() {
                ep[i]
            } else {
                op[i - ep.len()]
            }));
            if i >= ep.len() {
                assert(op[0].0 == "e"@);
            }
        }
    }
}

/// No parameter key and no fixed parameter value holds a `&` or `=`.
proof fn lemma_literal_chars()
    ensures
        char_free("fsym"@, '&') && char_free("fsym"@, '='),
        char_free("tsym"@, '&') && char_free("tsym"@, '='),
        char_free("fsyms"@, '&') && char_free("fsyms"@, '='),
        char_free("tsyms"@, '&') && char_free("tsyms"@, '='),
        char_free("ts"@, '&') && char_free("ts"@, '='),
        char_free("limit"@, '&') && char_free("limit"@, '='),
        char_free("aggregate"@, '&') && char_free("aggregate"@, '='),
        char_free("e"@, '&') && char_free("e"@, '='),
        char_free("tryConversion"@, '&') && char_free("tryConversion"@, '='),
        char_free("1"@, '&'),
        char_free("false"@, '&'),
{
    reveal_strlit("fsym");
    reveal_strlit("tsym");
    reveal_strlit("fsyms");
    reveal_strlit("tsyms");
    reveal_strlit("ts");
    reveal_strlit("limit");
    reveal_strlit("aggregate");
    reveal_strlit("e");
    reveal_strlit("tryConversion");
    reveal_strlit("1");
    reveal_strlit("false");
}

/// A decimal rendering consists of digit characters alone, so it holds no
/// `&`.
proof fn lemma_dec_nat_amp_free(n: nat)
    ensures
        char_free(spec_dec_nat(n), '&'),
    decreases n,
{
    if n >= 10 {
        lemma_dec_nat_amp_free(n / 10);
        assert forall|i: int| 0 <= i < spec_dec_nat(n).len() implies spec_dec_nat(n)[i]
            != '&' by {
            if i < spec_dec_nat(n / 10).len() {
                assert(spec_dec_nat(n)[i] == spec_dec_nat(n / 10)[i]);
            } else {
                assert(spec_dec_nat(n)[i] == spec_digit((n % 10) as int));
            }
        }
    }
}

/// A signed decimal rendering adds at most a minus sign, never a `&`.
proof fn lemma_dec_int_amp_free(i: int)
    ensures
        char_free(spec_dec_int(i), '&'),
{
    if i < 0 {
        lemma_dec_nat_amp_free((-i) as nat);
        assert forall|j: int| 0 <= j < spec_dec_int(i).len() implies spec_dec_int(i)[j]
            != '&' by {
            if j == 0 {
                assert(spec_dec_int(i)[0] == '-');
            } else {
                assert(spec_dec_int(i)[j] == spec_dec_nat((-i) as nat)[j - 1]);
            }
        }
    } else {
        lemma_dec_nat_amp_free(i as nat);
    }
}

/// Law: the query of any parameterised request parses back into exactly
/// its parameter pairs, in order, as long as the supplied symbols and the
/// named exchange hold no `&` — the numeric parameters render as digits
/// and need no such caveat. The one reading of a built URL is the request
/// that produced it.
pub proof fn lemma_url_query_round_trip(e: EndpointView, o: OptionsView)
    requires
        !(e is CoinList),
        char_free(o.exchanges, '&'),
        match e {
            EndpointView::CoinList => true,
            EndpointView::Price { fsym, tsyms } => char_free(fsym, '&') && char_free(tsyms, '&'),
            EndpointView::PriceMulti { fsyms, tsyms } => char_free(fsyms, '&') && char_free(
                tsyms,
                '&',
            ),
            EndpointView::PriceMultiFull { fsyms, tsyms } => char_free(fsyms, '&') && char_free(
                tsyms,
                '&',
            ),
            EndpointView::PriceHistorical { fsym, tsyms, .. } => char_free(fsym, '&')
                && char_free(tsyms, '&'),
            EndpointView::HistoDay { fsym, tsym, .. } => char_free(fsym, '&') && char_free(
                tsym,
                '&',
            ),
            EndpointView::HistoHour { fsym, tsym, .. } => char_free(fsym, '&') && char_free(
                tsym,
                '&',
            ),
            EndpointView::HistoMinute { fsym, tsym, .. } => char_free(fsym, '&') && char_free(
                tsym,
                '&',
            ),
        },
    ensures
        parse_query(render_pairs(query_pairs(e, o))) == query_pairs(e, o),
{
    lemma_literal_chars();
    lemma_endpoint_keys(e);
    let ep = endpoint_pairs(e);
    let op = option_pairs(o);
    let q = query_pairs(e, o);
    match e {
        EndpointView::CoinList => {},
        EndpointView::PriceHistorical { ts, .. } => {
            lemma_dec_int_amp_free(ts);
        },
        EndpointView::HistoDay { limit, .. } => {
            lemma_dec_nat_amp_free(limit);
        },
        EndpointView::HistoHour { limit, .. } => {
            lemma_dec_nat_amp_free(limit);
        },
        EndpointView::HistoMinute { limit, .. } => {
            lemma_dec_nat_amp_free(limit);
        },
        _ => {},
    }
    assert forall|i: int|
        0 <= i < q.len() implies char_free((#[trigger] q[i]).0, '&') && char_free(q[i].0, '=')
        && char_free(q[i].1, '&') by {
        assert(q[i] == (if i < ep.len() {
            ep[i]
        } else {
            op[i - ep.len()]
        }));
        if i >= ep.len() {
            if o.exchanges.len() > 0 {
                assert(op[0] == ("e"@, o.exchanges));
            }
            if !o.try_conversion {
                assert(op[op.len() - 1] == ("tryConversion"@, "false"@));
            }
        }
    }
    lemma_query_round_trip(q);
}

} // verus!

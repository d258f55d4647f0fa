//! Shape validation and typed extraction of API responses.
//!
//! Both extraction functions take an already-deserialized [`JsonValue`] and
//! either return the typed content or fail with a [`Error::Shape`] naming
//! the key that was missing or of the wrong type. Validation is atomic: one
//! malformed record invalidates the whole extraction, and no partial result
//! is ever handed out.

use vstd::prelude::*;

use crate::json::{lookup, spec_lookup, JsonNumber, JsonValue};

verus! {

/// One OHLCV record from the `Data` array of a historical response.
///
/// The price and volume fields carry the JSON numbers verbatim; `time` is
/// the bucket's start in seconds since the epoch and must be an integer.
#[derive(Clone, Copy, PartialEq, Eq, Structural, Debug)]
pub struct Dataset {
    /// Market price when the time slot closed.
    pub close: JsonNumber,
    /// Highest market price in the time slot.
    pub high: JsonNumber,
    /// Lowest market price in the time slot.
    pub low: JsonNumber,
    /// Market price when the time slot opened.
    pub open: JsonNumber,
    /// Start of the time slot, in seconds since the epoch.
    pub time: i64,
    /// Volume in the traded coin.
    pub volumefrom: JsonNumber,
    /// Volume in the target currency.
    pub volumeto: JsonNumber,
}

/// The error taxonomy of the library: the three kinds do not overlap and
/// every failure is surfaced to the immediate caller unchanged.
#[derive(Debug)]
pub enum Error {
    /// The transport failed to deliver a response.
    Network { message: String },
    /// The response body is not syntactically valid JSON.
    Parse { message: String },
    /// The JSON is valid but a required key is absent or of the wrong type.
    Shape { key: String },
}

/// The number stored under `key`, when the key is present and numeric.
pub open spec fn spec_num_field(ps: Seq<(String, JsonValue)>, key: Seq<char>) -> Option<
    JsonNumber,
> {
    match spec_lookup(ps, key) {
        Some(JsonValue::Number(n)) => Some(n),
        _ => None::<JsonNumber>,
    }
}

/// The integer stored under `key`, when the key is present, numeric, and an
/// integer in signed 64-bit range.
pub open spec fn spec_int_field(ps: Seq<(String, JsonValue)>, key: Seq<char>) -> Option<i64> {
    match spec_num_field(ps, key) {
        Some(n) => n.spec_as_int(),
        None => None::<i64>,
    }
}

/// What extracting one element of the `Data` array yields: the record, or
/// the name of the first required key (in field order `close`, `high`,
/// `low`, `open`, `time`, `volumefrom`, `volumeto`) that is absent or of
/// the wrong type. An element that is not an object reports the `Data` key
/// itself, since the array's content is then malformed as a whole.
pub open spec fn spec_record(v: JsonValue) -> Result<Dataset, Seq<char>> {
    match v {
        JsonValue::Object(ps) => spec_record_of(ps@),
        _ => Err("Data"@),
    }
}

/// [`spec_record`] on the pair list of an element that is an object.
pub open spec fn spec_record_of(ps: Seq<(String, JsonValue)>) -> Result<Dataset, Seq<char>> {
    if spec_num_field(ps, "close"@) is None {
        Err("close"@)
    } else if spec_num_field(ps, "high"@) is None {
        Err("high"@)
    } else if spec_num_field(ps, "low"@) is None {
        Err("low"@)
    } else if spec_num_field(ps, "open"@) is None {
        Err("open"@)
    } else if spec_int_field(ps, "time"@) is None {
        Err("time"@)
    } else if spec_num_field(ps, "volumefrom"@) is None {
        Err("volumefrom"@)
    } else if spec_num_field(ps, "volumeto"@) is None {
        Err("volumeto"@)
    } else {
        Ok(
            Dataset {
                close: spec_num_field(ps, "close"@)->Some_0,
                high: spec_num_field(ps, "high"@)->Some_0,
                low: spec_num_field(ps, "low"@)->Some_0,
                open: spec_num_field(ps, "open"@)->Some_0,
                time: spec_int_field(ps, "time"@)->Some_0,
                volumefrom: spec_num_field(ps, "volumefrom"@)->Some_0,
                volumeto: spec_num_field(ps, "volumeto"@)->Some_0,
            },
        )
    }
}

/// What extracting a whole `Data` array yields: one record per element in
/// the array's order, or the error of the first malformed element.
pub open spec fn spec_records_seq(es: Seq<JsonValue>) -> Result<Seq<Dataset>, Seq<char>>
    decreases es.len(),
{
    if es.len() == 0 {
        Ok(Seq::<Dataset>::empty())
    } else {
        match spec_record(es[0]) {
            Err(k) => Err(k),
            Ok(d) => match spec_records_seq(es.drop_first()) {
                Err(k) => Err(k),
                Ok(rest) => Ok(seq![d] + rest),
            },
        }
    }
}

/// What extracting records from a whole response value yields. The value
/// must be an object whose `Data` key holds an array; otherwise the `Data`
/// key is reported.
pub open spec fn spec_records(v: JsonValue) -> Result<Seq<Dataset>, Seq<char>> {
    match v {
        JsonValue::Object(ps) => match spec_lookup(ps@, "Data"@) {
            Some(JsonValue::Array(es)) => spec_records_seq(es@),
            _ => Err("Data"@),
        },
        _ => Err("Data"@),
    }
}

/// What extracting a single price from a response value yields: the number
/// under `sym`, or `sym` as the offending key when the value is not an
/// object or `sym` is absent or not numeric.
pub open spec fn spec_price(v: JsonValue, sym: Seq<char>) -> Result<JsonNumber, Seq<char>> {
    match v {
        JsonValue::Object(ps) => match spec_num_field(ps@, sym) {
            Some(n) => Ok(n),
            None => Err(sym),
        },
        _ => Err(sym),
    }
}

/// Find the number stored under `key`, when it is present and numeric.
fn num_field(ps: &Vec<(String, JsonValue)>, key: &str) -> (r: Option<JsonNumber>)
    ensures
        r == spec_num_field(ps@, key@),
{
    match lookup(ps, key) {
        Some(v) => match v {
            JsonValue::Number(n) => Some(*n),
            _ => None,
        },
        None => None,
    }
}

/// Extract one OHLCV record from one element of the `Data` array.
fn extract_record(entry: &JsonValue) -> (r: Result<Dataset, Error>)
    ensures
        match r {
            Ok(d) => spec_record(*entry) == Ok::<Dataset, Seq<char>>(d),
            Err(Error::Shape { key }) => spec_record(*entry) == Err::<Dataset, Seq<char>>(key@),
            Err(_) => false,
        },
{
    match entry {
        JsonValue::Object(ps) => {
            let close = match num_field(ps, "close") {
                Some(n) => n,
                None => {
                    return Err(Error::Shape { key: "close".to_owned() });
                },
            };
            let high = match num_field(ps, "high") {
                Some(n) => n,
                None => {
                    return Err(Error::Shape { key: "high".to_owned() });
                },
            };
            let low = match num_field(ps, "low") {
                Some(n) => n,
                None => {
                    return Err(Error::Shape { key: "low".to_owned() });
                },
            };
            let open = match num_field(ps, "open") {
                Some(n) => n,
                None => {
                    return Err(Error::Shape { key: "open".to_owned() });
                },
            };
            let time = match num_field(ps, "time") {
                Some(n) => match n.as_int() {
                    Some(t) => t,
                    None => {
                        return Err(Error::Shape { key: "time".to_owned() });
                    },
                },
                None => {
                    return Err(Error::Shape { key: "time".to_owned() });
                },
            };
            let volumefrom = match num_field(ps, "volumefrom") {
                Some(n) => n,
                None => {
                    return Err(Error::Shape { key: "volumefrom".to_owned() });
                },
            };
            let volumeto = match num_field(ps, "volumeto") {
                Some(n) => n,
                None => {
                    return Err(Error::Shape { key: "volumeto".to_owned() });
                },
            };
            Ok(Dataset { close, high, low, open, time, volumefrom, volumeto })
        },
        _ => Err(Error::Shape { key: "Data".to_owned() }),
    }
}

/// A `Data` array whose elements are all well-shaped extracts to exactly
/// one record per element, in the array's order.
pub proof fn lemma_records_all_ok(es: Seq<JsonValue>, ds: Seq<Dataset>)
    requires
        es.len() == ds.len(),
        forall|j: int|
            0 <= j < es.len() ==> spec_record(es[j]) == Ok::<Dataset, Seq<char>>(ds[j]),
    ensures
        spec_records_seq(es) == Ok::<Seq<Dataset>, Seq<char>>(ds),
    decreases es.len(),
{
    if es.len() == 0 {
        assert(ds =~= Seq::<Dataset>::empty());
    } else {
        lemma_records_all_ok(es.drop_first(), ds.drop_first());
        assert(seq![ds[0]] + ds.drop_first() =~= ds);
    }
}

/// One malformed element anywhere in the `Data` array makes the whole
/// extraction fail with that element's error: no partial result exists.
pub proof fn lemma_records_first_err(es: Seq<JsonValue>, i: int, k: Seq<char>)
    requires
        0 <= i < es.len(),
        forall|j: int| 0 <= j < i ==> spec_record(es[j]) is Ok,
        spec_record(es[i]) == Err::<Dataset, Seq<char>>(k),
    ensures
        spec_records_seq(es) == Err::<Seq<Dataset>, Seq<char>>(k),
    decreases i,
{
    if i > 0 {
        lemma_records_first_err(es.drop_first(), i - 1, k);
    }
}

/// An element that fails anywhere in the `Data` array poisons the whole
/// extraction, wherever it stands.
proof fn lemma_records_any_err(es: Seq<JsonValue>, i: int)
    requires
        0 <= i < es.len(),
        spec_record(es[i]) is Err,
    ensures
        spec_records_seq(es) is Err,
    decreases i,
{
    if i > 0 && spec_record(es[0]) is Ok {
        lemma_records_any_err(es.drop_first(), i - 1);
    }
}

/// Law: a response object whose `Data` array is entirely well-shaped
/// extracts to exactly one record per array element, in the array's order.
pub proof fn lemma_extraction_complete(
    ps: Vec<(String, JsonValue)>,
    es: Vec<JsonValue>,
    ds: Seq<Dataset>,
)
    requires
        spec_lookup(ps@, "Data"@) == Some(JsonValue::Array(es)),
        es@.len() == ds.len(),
        forall|j: int| 0 <= j < es@.len() ==> spec_record(es@[j]) == Ok::<Dataset, Seq<char>>(
            ds[j],
        ),
    ensures
        spec_records(JsonValue::Object(ps)) == Ok::<Seq<Dataset>, Seq<char>>(ds),
{
    lemma_records_all_ok(es@, ds);
}

/// Law: one malformed element anywhere in the `Data` array makes the whole
/// extraction fail — it is atomic, and no truncated sequence is returned.
pub proof fn lemma_extraction_atomic(ps: Vec<(String, JsonValue)>, es: Vec<JsonValue>, i: int)
    requires
        spec_lookup(ps@, "Data"@) == Some(JsonValue::Array(es)),
        0 <= i < es@.len(),
        spec_record(es@[i]) is Err,
    ensures
        spec_records(JsonValue::Object(ps)) is Err,
{
    lemma_records_any_err(es@, i);
}

/// Extract the typed OHLCV records of a historical response.
///
/// Succeeds exactly when the value is an object whose `Data` key holds an
/// array of well-shaped records, and then returns one record per array
/// element, in order. Any other value fails with [`Error::Shape`] naming
/// the first offending key; the extraction is atomic.
pub fn parse_json_to_vector(object: JsonValue) -> (r: Result<Vec<Dataset>, Error>)
    ensures
        match r {
            Ok(ds) => spec_records(object) == Ok::<Seq<Dataset>, Seq<char>>(ds@),
            Err(Error::Shape { key }) => spec_records(object) == Err::<Seq<Dataset>, Seq<char>>(
                key@,
            ),
            Err(_) => false,
        },
{
    match &object {
        JsonValue::Object(ps) => {
            match lookup(ps, "Data") {
                Some(data) => match data {
                    JsonValue::Array(es) => {
                        let mut out: Vec<Dataset> = Vec::new();
                        let mut i: usize = 0;
                        while i < es.len()
                            invariant
                                object == JsonValue::Object(*ps),
                                spec_lookup(ps@, "Data"@) == Some(JsonValue::Array(*es)),
                                0 <= i <= es@.len(),
                                out@.len() == i,
                                forall|j: int|
                                    0 <= j < i ==> spec_record(es@[j]) == Ok::<
                                        Dataset,
                                        Seq<char>,
                                    >(out@[j]),
                            decreases es@.len() - i,
                        {
                            match extract_record(&es[i]) {
                                Ok(d) => {
                                    out.push(d);
                                },
                                Err(e) => {
                                    proof {
                                        match spec_record(es@[i as int]) {
                                            Err(k) => lemma_records_first_err(
                                                es@,
                                                i as int,
                                                k,
                                            ),
                                            Ok(_) => {},
                                        }
                                    }
                                    return Err(e);
                                },
                            }
                            i = i + 1;
                        }
                        proof {
                            lemma_records_all_ok(es@, out@);
                        }
                        Ok(out)
                    },
                    _ => Err(Error::Shape { key: "Data".to_owned() }),
                },
                None => Err(Error::Shape { key: "Data".to_owned() }),
            }
        },
        _ => Err(Error::Shape { key: "Data".to_owned() }),
    }
}

/// Extract the price stored under `symbol` in a single-price response.
///
/// Succeeds exactly when the value is an object that maps `symbol` to a
/// number, and then returns that number verbatim; otherwise it fails with
/// [`Error::Shape`] naming `symbol`.
pub fn parse_json_to_float(object: JsonValue, symbol: &str) -> (r: Result<JsonNumber, Error>)
    ensures
        match r {
            Ok(n) => spec_price(object, symbol@) == Ok::<JsonNumber, Seq<char>>(n),
            Err(Error::Shape { key }) => key@ == symbol@ && spec_price(object, symbol@)
                == Err::<JsonNumber, Seq<char>>(key@),
            Err(_) => false,
        },
{
    match &object {
        JsonValue::Object(ps) => match num_field(ps, symbol) {
            Some(n) => Ok(n),
            None => Err(Error::Shape { key: symbol.to_owned() }),
        },
        _ => Err(Error::Shape { key: symbol.to_owned() }),
    }
}

} // verus!

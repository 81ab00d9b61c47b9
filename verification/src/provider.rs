use vstd::prelude::*;

verus! {

/// One currency's rate out of a provider response, expressed as units of
/// the foreign currency per one unit of the home (base) currency.
///
/// Both numbers are IEEE-754 binary64 bit patterns. `recip_bits` is the
/// reciprocal of `rate_bits` — the one floating-point step of the pipeline,
/// computed by the caller when it decodes the response, since this library
/// holds no floating-point code. The engine decides everything about the
/// reciprocal (whether it is finite, whether it may be persisted) from the
/// bit pattern alone.
pub struct Quote {
    pub currency: String,
    pub rate_bits: u64,
    pub recip_bits: u64,
}

impl Clone for Quote {
    fn clone(&self) -> (r: Self)
        ensures
            r == *self,
    {
        Quote {
            currency: self.currency.clone(),
            rate_bits: self.rate_bits,
            recip_bits: self.recip_bits,
        }
    }
}

/// One calendar day of a provider response: the raw date key, still
/// unparsed, and that day's full set of quotes.
pub struct DayRates {
    pub date: Vec<u8>,
    pub quotes: Vec<Quote>,
}

/// At most one representative day of quotes for one month.
pub struct MonthRates {
    pub month: u8,
    pub quotes: Vec<Quote>,
}

/// The quotes of one day name each currency at most once, as a response
/// object maps each currency to a single number.
pub open spec fn quotes_wf(qs: Seq<Quote>) -> bool {
    forall|i: int, j: int|
        0 <= i < j < qs.len() ==> (#[trigger] qs[i]).currency@ != (#[trigger] qs[j]).currency@
}

pub open spec fn days_wf(days: Seq<DayRates>) -> bool {
    forall|i: int| 0 <= i < days.len() ==> quotes_wf((#[trigger] days[i]).quotes@)
}

/// Shape of an aggregated year: months in range and distinct, and each
/// month's quotes naming distinct currencies — what the aggregator
/// produces.
pub open spec fn monthly_wf(ms: Seq<MonthRates>) -> bool {
    &&& forall|i: int| 0 <= i < ms.len() ==> 1 <= (#[trigger] ms[i]).month <= 12
    &&& forall|i: int, j: int|
        0 <= i < j < ms.len() ==> (#[trigger] ms[i]).month != (#[trigger] ms[j]).month
    &&& forall|i: int| 0 <= i < ms.len() ==> quotes_wf((#[trigger] ms[i]).quotes@)
}

/// Whether a binary64 bit pattern denotes a finite number: finite exactly
/// when the exponent field is not all ones (which denotes an infinity or a
/// NaN).
pub open spec fn spec_bits_finite(bits: u64) -> bool {
    (bits >> 52) & 0x7ff != 0x7ff
}

pub fn bits_finite(bits: u64) -> (r: bool)
    ensures
        r == spec_bits_finite(bits),
{
    (bits >> 52) & 0x7ff != 0x7ff
}

} // verus!

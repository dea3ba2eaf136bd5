//! The classifier: from candle history to a trade record.
//!
//! Two moving averages of the reference closes give the bias; the highs and
//! lows of the symbol's own candles give the zones; the close of the latest
//! candle is the current price. The first 71 candles of either history are
//! left out of the current window. All arithmetic is done in price units.
//!
//! The bias is decided on the means themselves, not on what is written of
//! them: two sums of closes are compared crosswise with the two counts, so
//! that means which differ by less than a unit still give a direction. The
//! record carries the means rounded to the nearest unit.

use crate::decimal::{
    format_price, lemma_price_text_round_trip, parse_price, parse_price_or_zero, price_or_zero,
    price_text, price_units,
};
use crate::dto::{Bias, Candlestick, CandlestickView, Trade, TradeView};
use crate::status_trade::{next_status_of, update_status};
use crate::store::{chain_or_empty, ChainStore, ChainsView};
use crate::zones::{compute_zones, zones_of, zones_ordered, Zones};
use vstd::prelude::*;
use vstd::slice::slice_subrange;
use vstd::string::*;

verus! {

/// Candles that a history must hold to be classified.
pub const MIN_HISTORY: usize = 271;

/// Candles at the start of a history that the current window leaves out.
pub const WINDOW_START: usize = 71;

/// Candles at the start of the reference history that make the older window.
pub const OLDER_WINDOW: usize = 200;

/// The views of a run of candles.
pub open spec fn candle_views(candles: Seq<Candlestick>) -> Seq<CandlestickView> {
    candles.map_values(|c: Candlestick| c@)
}

/// The sum of the closes of `candles`; a close without a value adds nothing.
pub open spec fn close_sum(candles: Seq<CandlestickView>) -> nat
    decreases candles.len(),
{
    if candles.len() == 0 {
        0
    } else {
        close_sum(candles.drop_last()) + price_or_zero(candles.last().close_price) as nat
    }
}

/// `sum / count`, rounded to the nearest integer, halves upwards; 0 where
/// `count` is 0.
pub open spec fn rounded_quotient(sum: nat, count: nat) -> nat {
    if count == 0 {
        0
    } else {
        ((2 * sum + count) / (2 * count)) as nat
    }
}

/// The mean close of `candles`, rounded to the nearest unit. Every candle
/// counts in the divisor, also one whose close has no value.
pub open spec fn moving_average(candles: Seq<CandlestickView>) -> nat {
    rounded_quotient(close_sum(candles), candles.len())
}

/// The highest high of `candles` that has a value; 0 where none has.
pub open spec fn max_high(candles: Seq<CandlestickView>) -> u64
    decreases candles.len(),
{
    if candles.len() == 0 {
        0
    } else {
        let rest = max_high(candles.drop_last());
        let high = price_or_zero(candles.last().high_price);
        if high > rest {
            high
        } else {
            rest
        }
    }
}

/// The lowest low of `candles` that has a value; `u64::MAX` where none has.
pub open spec fn min_low(candles: Seq<CandlestickView>) -> u64
    decreases candles.len(),
{
    if candles.len() == 0 {
        u64::MAX
    } else {
        let rest = min_low(candles.drop_last());
        match price_units(candles.last().low_price) {
            Some(low) => if low < rest {
                low
            } else {
                rest
            },
            None => rest,
        }
    }
}

/// The index of the candle that closes last; of several that close together,
/// the one that stands last. 0 for the empty run.
#[verifier::opaque]
pub open spec fn latest_index(candles: Seq<CandlestickView>) -> int
    decreases candles.len(),
{
    if candles.len() <= 1 {
        0
    } else {
        let earlier = latest_index(candles.drop_last());
        if candles.last().close_time >= candles[earlier].close_time {
            candles.len() - 1
        } else {
            earlier
        }
    }
}

/// The direction that two means give, each mean given as a sum and the
/// count it is divided by: bullish where the current mean is above the older
/// one, bearish where it is below, neutral where they are equal. The means
/// are compared exactly, as `current_sum / current_count` against
/// `older_sum / older_count` multiplied out.
pub open spec fn bias_of(
    current_sum: nat,
    current_count: nat,
    older_sum: nat,
    older_count: nat,
) -> Bias {
    if current_sum * older_count > older_sum * current_count {
        Bias::Bullish
    } else if current_sum * older_count < older_sum * current_count {
        Bias::Bearish
    } else {
        Bias::Neutral
    }
}

/// The direction that the mean closes of two runs of candles give.
pub open spec fn mean_bias(current: Seq<CandlestickView>, older: Seq<CandlestickView>) -> Bias {
    bias_of(close_sum(current), current.len(), close_sum(older), older.len())
}

/// The close of the candle of `window` that closes last, as a price with
/// eight fractional digits; a close without a value is written as zero.
pub open spec fn latest_close(window: Seq<CandlestickView>) -> Seq<char> {
    price_text(price_or_zero(window[latest_index(window)].close_price))
}

/// Whether both histories are long enough to be classified.
pub open spec fn has_history(candles: Seq<CandlestickView>, reference: Seq<CandlestickView>) -> bool {
    candles.len() >= MIN_HISTORY && reference.len() >= MIN_HISTORY
}

/// The record of a symbol without enough history: no bias, no status, every
/// price "0.0".
pub open spec fn neutral_trade(symbol: Seq<char>, of: nat) -> TradeView {
    TradeView {
        symbol,
        current_price: "0.0"@,
        cma: "0.0"@,
        oma: "0.0"@,
        bias: Bias::Neutral,
        status: None,
        zone_min: "0.0"@,
        zone_1: "0.0"@,
        zone_2: "0.0"@,
        zone_3: "0.0"@,
        zone_4: "0.0"@,
        zone_5: "0.0"@,
        zone_6: "0.0"@,
        zone_7: "0.0"@,
        zone_max: "0.0"@,
        of,
    }
}

/// The current window of a history: all but its first 71 candles.
pub open spec fn current_window(candles: Seq<CandlestickView>) -> Seq<CandlestickView> {
    candles.subrange(WINDOW_START as int, candles.len() as int)
}

/// The older window of a history: its first 200 candles.
pub open spec fn older_window(candles: Seq<CandlestickView>) -> Seq<CandlestickView> {
    candles.subrange(0, OLDER_WINDOW as int)
}

/// The zones that the current window of `candles` spans.
pub open spec fn window_zones(candles: Seq<CandlestickView>) -> Zones {
    zones_of(min_low(current_window(candles)), max_high(current_window(candles)))
}

/// The record of a symbol with enough history, before its status is set.
pub open spec fn measured_trade(
    symbol: Seq<char>,
    candles: Seq<CandlestickView>,
    reference: Seq<CandlestickView>,
) -> TradeView {
    let cma = moving_average(current_window(reference));
    let oma = moving_average(older_window(reference));
    let window = current_window(candles);
    let zones = window_zones(candles);
    TradeView {
        symbol,
        current_price: latest_close(window),
        cma: price_text(cma as u64),
        oma: price_text(oma as u64),
        bias: mean_bias(current_window(reference), older_window(reference)),
        status: None,
        zone_min: price_text(zones.zone_min),
        zone_1: price_text(zones.zone_1),
        zone_2: price_text(zones.zone_2),
        zone_3: price_text(zones.zone_3),
        zone_4: price_text(zones.zone_4),
        zone_5: price_text(zones.zone_5),
        zone_6: price_text(zones.zone_6),
        zone_7: price_text(zones.zone_7),
        zone_max: price_text(zones.zone_max),
        of: candles.len(),
    }
}

/// The record that the classifier gives for a symbol, `prior` being the
/// record admitted last for it, if any.
///
/// Without enough history the record is neutral. With it, the record is
/// measured from the candles, and its status is the one that follows the
/// prior record; it has none where there is no prior record.
pub open spec fn classified(
    symbol: Seq<char>,
    candles: Seq<CandlestickView>,
    reference: Seq<CandlestickView>,
    prior: Option<TradeView>,
) -> TradeView {
    if !has_history(candles, reference) {
        neutral_trade(symbol, candles.len())
    } else {
        let measured = measured_trade(symbol, candles, reference);
        match prior {
            Some(last) => TradeView { status: next_status_of(measured, last), ..measured },
            None => measured,
        }
    }
}

/// The record admitted last for `symbol`, if the symbol has one.
pub open spec fn prior_trade(store: ChainsView, symbol: Seq<char>) -> Option<TradeView> {
    let chain = chain_or_empty(store, symbol);
    if chain.len() > 0 {
        Some(chain.last().trade)
    } else {
        None
    }
}

proof fn lemma_close_sum_bound(candles: Seq<CandlestickView>)
    ensures
        close_sum(candles) <= candles.len() * u64::MAX,
    decreases candles.len(),
{
    if candles.len() > 0 {
        lemma_close_sum_bound(candles.drop_last());
        assert((candles.len() - 1) * u64::MAX + u64::MAX == candles.len() * u64::MAX)
            by (nonlinear_arith);
    }
}

/// Rounding a quotient from its integer part and remainder.
proof fn lemma_rounded_quotient(sum: nat, count: nat, q: nat, r: nat)
    requires
        count > 0,
        r < count,
        sum == q * count + r,
    ensures
        rounded_quotient(sum, count) == if 2 * r >= count {
            q + 1
        } else {
            q
        },
{
    let d = 2 * count;
    if 2 * r >= count {
        let rest = (2 * r - count) as int;
        assert(2 * sum + count == (q + 1) * d + rest) by (nonlinear_arith)
            requires
                sum == q * count + r,
                d == 2 * count,
                rest == 2 * r - count,
        ;
        vstd::arithmetic::div_mod::lemma_fundamental_div_mod_converse(
            (2 * sum + count) as int,
            d as int,
            (q + 1) as int,
            rest,
        );
    } else {
        let rest = (2 * r + count) as int;
        assert(2 * sum + count == q * d + rest) by (nonlinear_arith)
            requires
                sum == q * count + r,
                d == 2 * count,
                rest == 2 * r + count,
        ;
        vstd::arithmetic::div_mod::lemma_fundamental_div_mod_converse(
            (2 * sum + count) as int,
            d as int,
            q as int,
            rest,
        );
    }
}

/// The sum of the closes of `candles` in price units; a close without a
/// value adds nothing.
pub fn sum_closes(candles: &[Candlestick]) -> (sum: u128)
    ensures
        sum == close_sum(candle_views(candles@)),
        sum <= candles@.len() * u64::MAX,
{
    let ghost views = candle_views(candles@);
    let n = candles.len();
    let mut sum: u128 = 0;
    let mut i: usize = 0;
    while i < n
        invariant
            i <= n,
            n == candles@.len(),
            views == candle_views(candles@),
            sum == close_sum(views.subrange(0, i as int)),
        decreases n - i,
    {
        let close = match parse_price(candles[i].close_price.as_str()) {
            Some(v) => v,
            None => 0,
        };
        proof {
            assert(views.subrange(0, i + 1).drop_last() =~= views.subrange(0, i as int));
            assert(views.subrange(0, i + 1).last() == candles@[i as int]@);
            lemma_close_sum_bound(views.subrange(0, i + 1));
            assert((i + 1) * u64::MAX <= usize::MAX * u64::MAX) by (nonlinear_arith)
                requires
                    i + 1 <= usize::MAX,
            ;
            assert(usize::MAX * u64::MAX <= 0xffff_ffff_ffff_ffff * 0xffff_ffff_ffff_ffff)
                by (nonlinear_arith)
                requires
                    usize::MAX <= 0xffff_ffff_ffff_ffff,
                    u64::MAX == 0xffff_ffff_ffff_ffff,
            ;
        }
        sum = sum + close as u128;
        i = i + 1;
    }
    proof {
        assert(views.subrange(0, n as int) =~= views);
        lemma_close_sum_bound(views);
    }
    sum
}

/// The mean close of `candles` in price units, rounded to the nearest unit;
/// 0 for no candles.
pub fn calculate_moving_average(candles: &[Candlestick]) -> (mean: u64)
    ensures
        mean == moving_average(candle_views(candles@)),
{
    let n = candles.len();
    if n == 0 {
        return 0;
    }
    let sum = sum_closes(candles);
    let count = n as u128;
    let q = sum / count;
    let r = sum % count;
    proof {
        lemma_mean_fits(sum as nat, count as nat, q as nat, r as nat);
        lemma_rounded_quotient(sum as nat, count as nat, q as nat, r as nat);
    }
    if 2 * r >= count {
        (q + 1) as u64
    } else {
        q as u64
    }
}

/// The rounded mean of numbers that fit in 64 bits fits in 64 bits.
proof fn lemma_mean_fits(sum: nat, count: nat, q: nat, r: nat)
    requires
        count > 0,
        q == sum / count,
        r == sum % count,
        sum <= count * u64::MAX,
    ensures
        sum == q * count + r,
        r < count,
        q <= u64::MAX,
        2 * r >= count ==> q < u64::MAX,
{
    vstd::arithmetic::div_mod::lemma_fundamental_div_mod(sum as int, count as int);
    assert(count * q == q * count) by (nonlinear_arith);
    if q > u64::MAX {
        assert(q * count >= (u64::MAX + 1) * count) by (nonlinear_arith)
            requires
                q >= u64::MAX + 1,
                count > 0,
        ;
        assert((u64::MAX + 1) * count == count * u64::MAX + count) by (nonlinear_arith);
    }
    if q == u64::MAX {
        assert(q * count == count * u64::MAX) by (nonlinear_arith)
            requires
                q == u64::MAX,
        ;
    }
}

/// The highest high of `candles` in price units; 0 where no high has a value.
pub fn highest_high(candles: &[Candlestick]) -> (high: u64)
    ensures
        high == max_high(candle_views(candles@)),
{
    let ghost views = candle_views(candles@);
    let mut high: u64 = 0;
    let mut i: usize = 0;
    while i < candles.len()
        invariant
            i <= candles@.len(),
            views == candle_views(candles@),
            high == max_high(views.subrange(0, i as int)),
        decreases candles@.len() - i,
    {
        let value = match parse_price(candles[i].high_price.as_str()) {
            Some(v) => v,
            None => 0,
        };
        proof {
            assert(views.subrange(0, i + 1).drop_last() =~= views.subrange(0, i as int));
            assert(views.subrange(0, i + 1).last() == candles@[i as int]@);
        }
        if value > high {
            high = value;
        }
        i = i + 1;
    }
    assert(views.subrange(0, candles@.len() as int) =~= views);
    high
}

/// The lowest low of `candles` in price units; `u64::MAX` where no low has a
/// value.
pub fn lowest_low(candles: &[Candlestick]) -> (low: u64)
    ensures
        low == min_low(candle_views(candles@)),
{
    let ghost views = candle_views(candles@);
    let mut low: u64 = u64::MAX;
    let mut i: usize = 0;
    while i < candles.len()
        invariant
            i <= candles@.len(),
            views == candle_views(candles@),
            low == min_low(views.subrange(0, i as int)),
        decreases candles@.len() - i,
    {
        let parsed = parse_price(candles[i].low_price.as_str());
        proof {
            assert(views.subrange(0, i + 1).drop_last() =~= views.subrange(0, i as int));
            assert(views.subrange(0, i + 1).last() == candles@[i as int]@);
        }
        match parsed {
            Some(value) => {
                if value < low {
                    low = value;
                }
            },
            None => {},
        }
        i = i + 1;
    }
    assert(views.subrange(0, candles@.len() as int) =~= views);
    low
}

/// How the latest candle of a run follows from that of the run without its
/// last candle.
proof fn lemma_latest_index_step(candles: Seq<CandlestickView>)
    requires
        candles.len() >= 1,
    ensures
        0 <= latest_index(candles) < candles.len(),
        candles.len() >= 2 ==> latest_index(candles) == if candles.last().close_time
            >= candles[latest_index(candles.drop_last())].close_time {
            candles.len() - 1
        } else {
            latest_index(candles.drop_last())
        },
    decreases candles.len(),
{
    reveal(latest_index);
    if candles.len() >= 2 {
        lemma_latest_index_step(candles.drop_last());
    }
}

/// The index of the candle that closes last, the last of several that close
/// together; 0 where there is no candle.
pub fn latest_candle(candles: &[Candlestick]) -> (index: usize)
    ensures
        index == latest_index(candle_views(candles@)),
        candles@.len() > 0 ==> index < candles@.len(),
{
    let ghost views = candle_views(candles@);
    if candles.len() == 0 {
        proof {
            reveal(latest_index);
        }
        return 0;
    }
    let mut index: usize = 0;
    let mut i: usize = 1;
    assert(latest_index(views.subrange(0, 1)) == 0) by {
        lemma_latest_index_step(views.subrange(0, 1));
    }
    while i < candles.len()
        invariant
            1 <= i <= candles@.len(),
            views.len() == candles@.len(),
            forall|j: int| 0 <= j < views.len() ==> (#[trigger] views[j]).close_time == candles@[j].close_time,
            index < i,
            index == latest_index(views.subrange(0, i as int)),
        decreases candles@.len() - i,
    {
        proof {
            let grown = views.subrange(0, i + 1);
            assert(grown.drop_last() =~= views.subrange(0, i as int));
            lemma_latest_index_step(grown);
            assert(grown.last() == views[i as int]);
            assert(grown[index as int] == views[index as int]);
        }
        if candles[i].close_time >= candles[index].close_time {
            index = i;
        }
        i = i + 1;
    }
    assert(views.subrange(0, candles@.len() as int) =~= views);
    index
}

/// Two quotients compare as their integer parts do, and as their remainders
/// multiplied out where the integer parts agree.
proof fn lemma_compare_quotients(a: nat, m: nat, b: nat, n: nat)
    requires
        m > 0,
        n > 0,
    ensures
        a / m > b / n ==> a * n > b * m,
        a / m < b / n ==> a * n < b * m,
        a / m == b / n ==> (a * n > b * m <==> (a % m) * n > (b % n) * m) && (a * n < b * m <==> (a
            % m) * n < (b % n) * m),
{
    let qa = a / m;
    let ra = a % m;
    let qb = b / n;
    let rb = b % n;
    vstd::arithmetic::div_mod::lemma_fundamental_div_mod(a as int, m as int);
    vstd::arithmetic::div_mod::lemma_fundamental_div_mod(b as int, n as int);
    let unit = m * n;
    assert(a * n == qa * unit + ra * n) by (nonlinear_arith)
        requires
            a == m * qa + ra,
            unit == m * n,
    ;
    assert(b * m == qb * unit + rb * m) by (nonlinear_arith)
        requires
            b == n * qb + rb,
            unit == m * n,
    ;
    assert(ra * n < unit) by (nonlinear_arith)
        requires
            ra < m,
            n > 0,
            unit == m * n,
    ;
    assert(rb * m < unit) by (nonlinear_arith)
        requires
            rb < n,
            m > 0,
            unit == m * n,
    ;
    if qa > qb {
        assert(qa * unit >= qb * unit + unit) by (nonlinear_arith)
            requires
                qa >= qb + 1,
                unit >= 0,
        ;
    }
    if qa < qb {
        assert(qb * unit >= qa * unit + unit) by (nonlinear_arith)
            requires
                qb >= qa + 1,
                unit >= 0,
        ;
    }
}

/// The direction that the mean closes of two runs of candles give: that of
/// the current run against that of the older run, compared exactly. Neutral
/// where either run is empty.
pub fn derive_bias(current: &[Candlestick], older: &[Candlestick]) -> (bias: Bias)
    ensures
        bias == mean_bias(candle_views(current@), candle_views(older@)),
{
    let current_count = current.len();
    let older_count = older.len();
    let current_sum = sum_closes(current);
    let older_sum = sum_closes(older);
    if current_count == 0 || older_count == 0 {
        assert(current_sum * older_count == 0 && older_sum * current_count == 0)
            by (nonlinear_arith)
            requires
                current_count == 0 || older_count == 0,
                current_sum <= current_count * u64::MAX,
                older_sum <= older_count * u64::MAX,
                current_sum >= 0,
                older_sum >= 0,
        ;
        return Bias::Neutral;
    }
    let m = current_count as u128;
    let n = older_count as u128;
    proof {
        lemma_compare_quotients(current_sum as nat, m as nat, older_sum as nat, n as nat);
    }
    let current_whole = current_sum / m;
    let older_whole = older_sum / n;
    if current_whole > older_whole {
        Bias::Bullish
    } else if current_whole < older_whole {
        Bias::Bearish
    } else {
        let current_rest = current_sum % m;
        let older_rest = older_sum % n;
        assert(current_rest * n <= 0xffff_ffff_ffff_ffff * 0xffff_ffff_ffff_ffff)
            by (nonlinear_arith)
            requires
                current_rest <= 0xffff_ffff_ffff_ffff,
                n <= 0xffff_ffff_ffff_ffff,
        ;
        assert(older_rest * m <= 0xffff_ffff_ffff_ffff * 0xffff_ffff_ffff_ffff)
            by (nonlinear_arith)
            requires
                older_rest <= 0xffff_ffff_ffff_ffff,
                m <= 0xffff_ffff_ffff_ffff,
        ;
        let left = current_rest * n;
        let right = older_rest * m;
        if left > right {
            Bias::Bullish
        } else if left < right {
            Bias::Bearish
        } else {
            Bias::Neutral
        }
    }
}

fn neutral_record(symbol: &str, of: usize) -> (trade: Trade)
    ensures
        trade@ == neutral_trade(symbol@, of as nat),
{
    Trade {
        symbol: symbol.to_owned(),
        current_price: "0.0".to_owned(),
        cma: "0.0".to_owned(),
        oma: "0.0".to_owned(),
        bias: Bias::Neutral,
        status: None,
        zone_min: "0.0".to_owned(),
        zone_1: "0.0".to_owned(),
        zone_2: "0.0".to_owned(),
        zone_3: "0.0".to_owned(),
        zone_4: "0.0".to_owned(),
        zone_5: "0.0".to_owned(),
        zone_6: "0.0".to_owned(),
        zone_7: "0.0".to_owned(),
        zone_max: "0.0".to_owned(),
        of,
    }
}

/// Measures a symbol with enough history: averages, bias, zones and current
/// price. The status is left absent.
pub fn measure_trade(symbol: &str, candlesticks: &[Candlestick], reference_candles: &[Candlestick]) -> (trade:
    Trade)
    requires
        has_history(candle_views(candlesticks@), candle_views(reference_candles@)),
    ensures
        trade@ == measured_trade(
            symbol@,
            candle_views(candlesticks@),
            candle_views(reference_candles@),
        ),
{
    let ghost candles = candle_views(candlesticks@);
    let ghost reference = candle_views(reference_candles@);
    let recent = slice_subrange(reference_candles, WINDOW_START, reference_candles.len());
    let older = slice_subrange(reference_candles, 0, OLDER_WINDOW);
    let window = slice_subrange(candlesticks, WINDOW_START, candlesticks.len());
    proof {
        assert(candle_views(recent@) =~= current_window(reference));
        assert(candle_views(older@) =~= older_window(reference));
        assert(candle_views(window@) =~= current_window(candles));
    }
    let cma = calculate_moving_average(recent);
    let oma = calculate_moving_average(older);
    let zones = compute_zones(lowest_low(window), highest_high(window));
    let latest = latest_candle(window);
    assert(candle_views(window@)[latest as int] == window@[latest as int]@);
    Trade {
        symbol: symbol.to_owned(),
        current_price: format_price(parse_price_or_zero(window[latest].close_price.as_str())),
        cma: format_price(cma),
        oma: format_price(oma),
        bias: derive_bias(recent, older),
        status: None,
        zone_min: format_price(zones.zone_min),
        zone_1: format_price(zones.zone_1),
        zone_2: format_price(zones.zone_2),
        zone_3: format_price(zones.zone_3),
        zone_4: format_price(zones.zone_4),
        zone_5: format_price(zones.zone_5),
        zone_6: format_price(zones.zone_6),
        zone_7: format_price(zones.zone_7),
        zone_max: format_price(zones.zone_max),
        of: candlesticks.len(),
    }
}

/// Classifies a symbol given the record admitted last for it, if any.
pub fn classify(
    symbol: &str,
    candlesticks: &[Candlestick],
    reference_candles: &[Candlestick],
    prior: Option<&Trade>,
) -> (trade: Trade)
    ensures
        trade@ == classified(
            symbol@,
            candle_views(candlesticks@),
            candle_views(reference_candles@),
            match prior {
                Some(last) => Some(last@),
                None => None,
            },
        ),
{
    if candlesticks.len() < MIN_HISTORY || reference_candles.len() < MIN_HISTORY {
        return neutral_record(symbol, candlesticks.len());
    }
    let measured = measure_trade(symbol, candlesticks, reference_candles);
    match prior {
        Some(last) => update_status(measured, last),
        None => measured,
    }
}

/// Classifies a symbol: measures its candles against the reference candles
/// and sets the status that follows the last record in the symbol's chain.
pub fn generate_trade(
    symbol: &str,
    candlesticks: Vec<Candlestick>,
    reference_candles: Vec<Candlestick>,
    store: &ChainStore,
) -> (trade: Trade)
    ensures
        trade@ == classified(
            symbol@,
            candle_views(candlesticks@),
            candle_views(reference_candles@),
            prior_trade(store@, symbol@),
        ),
        !has_history(candle_views(candlesticks@), candle_views(reference_candles@)) ==> trade@
            == neutral_trade(symbol@, candlesticks@.len()),
{
    let last = store.tail(symbol);
    match last {
        Some(prior) => classify(
            symbol,
            candlesticks.as_slice(),
            reference_candles.as_slice(),
            Some(&prior),
        ),
        None => classify(symbol, candlesticks.as_slice(), reference_candles.as_slice(), None),
    }
}

/// "0.0" is a price, and it is worth nothing.
pub proof fn lemma_zero_text()
    ensures
        price_units("0.0"@) == Some(0u64),
{
    reveal_strlit("0.0");
    let s = "0.0"@;
    crate::decimal::lemma_digit_prefix_len(s, 1);
    let digits = crate::decimal::scaled_digits(s);
    assert(s.subrange(2, 3) =~= seq!['0']);
    assert(digits =~= seq!['0', '0', '0', '0', '0', '0', '0', '0', '0']);
    reveal_with_fuel(crate::decimal::digits_value, 10);
}

/// The prices that a record carries, in units.
pub open spec fn zone_values(trade: TradeView) -> Zones {
    Zones {
        zone_min: price_or_zero(trade.zone_min),
        zone_1: price_or_zero(trade.zone_1),
        zone_2: price_or_zero(trade.zone_2),
        zone_3: price_or_zero(trade.zone_3),
        zone_4: price_or_zero(trade.zone_4),
        zone_5: price_or_zero(trade.zone_5),
        zone_6: price_or_zero(trade.zone_6),
        zone_7: price_or_zero(trade.zone_7),
        zone_max: price_or_zero(trade.zone_max),
    }
}

/// The zones that a classified record carries as text are the zones of its
/// window.
pub proof fn lemma_zone_texts(
    symbol: Seq<char>,
    candles: Seq<CandlestickView>,
    reference: Seq<CandlestickView>,
    prior: Option<TradeView>,
)
    requires
        has_history(candles, reference),
    ensures
        zone_values(classified(symbol, candles, reference, prior)) == window_zones(candles),
{
    let z = window_zones(candles);
    lemma_price_text_round_trip(z.zone_min);
    lemma_price_text_round_trip(z.zone_1);
    lemma_price_text_round_trip(z.zone_2);
    lemma_price_text_round_trip(z.zone_3);
    lemma_price_text_round_trip(z.zone_4);
    lemma_price_text_round_trip(z.zone_5);
    lemma_price_text_round_trip(z.zone_6);
    lemma_price_text_round_trip(z.zone_7);
    lemma_price_text_round_trip(z.zone_max);
}

/// The zones of a classified record are in order from the bottom up, as long
/// as the lowest low of its window does not lie above the highest high.
pub proof fn lemma_classified_zones_ordered(
    symbol: Seq<char>,
    candles: Seq<CandlestickView>,
    reference: Seq<CandlestickView>,
    prior: Option<TradeView>,
)
    requires
        has_history(candles, reference),
        min_low(current_window(candles)) <= max_high(current_window(candles)),
    ensures
        zones_ordered(zone_values(classified(symbol, candles, reference, prior))),
{
    lemma_zone_texts(symbol, candles, reference, prior);
    crate::zones::lemma_zones_ordered(
        min_low(current_window(candles)),
        max_high(current_window(candles)),
    );
}

/// No readable low lies below the lowest low, and no high above the highest
/// high.
pub proof fn lemma_window_extremes(candles: Seq<CandlestickView>, i: int)
    requires
        0 <= i < candles.len(),
    ensures
        price_or_zero(candles[i].high_price) <= max_high(candles),
        price_units(candles[i].low_price) matches Some(low) ==> min_low(candles) <= low,
    decreases candles.len(),
{
    if i < candles.len() - 1 {
        lemma_window_extremes(candles.drop_last(), i);
    }
}

/// The zones of a classified record are in order as soon as one candle of
/// its window has a readable low that is not above its high.
pub proof fn lemma_sound_candle_orders_zones(
    symbol: Seq<char>,
    candles: Seq<CandlestickView>,
    reference: Seq<CandlestickView>,
    prior: Option<TradeView>,
    i: int,
)
    requires
        has_history(candles, reference),
        WINDOW_START <= i < candles.len(),
        price_units(candles[i].low_price) is Some,
        price_or_zero(candles[i].low_price) <= price_or_zero(candles[i].high_price),
    ensures
        zones_ordered(zone_values(classified(symbol, candles, reference, prior))),
{
    let window = current_window(candles);
    assert(window[i - WINDOW_START] == candles[i]);
    lemma_window_extremes(window, i - WINDOW_START);
    lemma_classified_zones_ordered(symbol, candles, reference, prior);
}

/// Without 271 candles of either history the record is neutral: no bias, no
/// status, and "0.0" for every price.
pub proof fn lemma_short_history_is_neutral(
    symbol: Seq<char>,
    candles: Seq<CandlestickView>,
    reference: Seq<CandlestickView>,
    prior: Option<TradeView>,
)
    requires
        candles.len() < 271 || reference.len() < 271,
    ensures
        ({
            let t = classified(symbol, candles, reference, prior);
            &&& t.bias == Bias::Neutral
            &&& t.status is None
            &&& t.current_price == "0.0"@
            &&& t.cma == "0.0"@
            &&& t.oma == "0.0"@
            &&& t.zone_min == "0.0"@
            &&& t.zone_1 == "0.0"@
            &&& t.zone_2 == "0.0"@
            &&& t.zone_3 == "0.0"@
            &&& t.zone_4 == "0.0"@
            &&& t.zone_5 == "0.0"@
            &&& t.zone_6 == "0.0"@
            &&& t.zone_7 == "0.0"@
            &&& t.zone_max == "0.0"@
            &&& t.of == candles.len()
        }),
{
}

/// The bias of a classified record is the sign of the difference of the two
/// means of the reference closes, the current mean less the older one, taken
/// exactly. A record without enough history is neutral.
pub proof fn lemma_bias_is_derived(
    symbol: Seq<char>,
    candles: Seq<CandlestickView>,
    reference: Seq<CandlestickView>,
    prior: Option<TradeView>,
)
    ensures
        ({
            let t = classified(symbol, candles, reference, prior);
            let current = current_window(reference);
            let older = older_window(reference);
            if has_history(candles, reference) {
                &&& t.bias == Bias::Bullish <==> close_sum(current) * older.len() > close_sum(
                    older,
                ) * current.len()
                &&& t.bias == Bias::Bearish <==> close_sum(current) * older.len() < close_sum(
                    older,
                ) * current.len()
                &&& t.bias == Bias::Neutral <==> close_sum(current) * older.len() == close_sum(
                    older,
                ) * current.len()
            } else {
                t.bias == Bias::Neutral
            }
        }),
{
}

/// A mean that is not above another is not above it after rounding either.
pub proof fn lemma_rounding_keeps_order(a: nat, m: nat, b: nat, n: nat)
    requires
        m > 0,
        n > 0,
        a * n <= b * m,
    ensures
        rounded_quotient(a, m) <= rounded_quotient(b, n),
{
    let q = rounded_quotient(a, m);
    if q > 0 {
        let k = (2 * q - 1) as nat;
        vstd::arithmetic::div_mod::lemma_fundamental_div_mod((2 * a + m) as int, (2 * m) as int);
        assert(q * (2 * m) <= 2 * a + m) by (nonlinear_arith)
            requires
                2 * a + m == (2 * m) * q + (2 * a + m) % (2 * m),
                (2 * a + m) % (2 * m) >= 0,
        ;
        assert(k * m <= 2 * a) by (nonlinear_arith)
            requires
                q * (2 * m) <= 2 * a + m,
                k == 2 * q - 1,
        ;
        assert(k * n <= 2 * b) by (nonlinear_arith)
            requires
                k * m <= 2 * a,
                a * n <= b * m,
                m > 0,
                n > 0,
                k >= 0,
        {
            assert((k * m) * n <= (2 * a) * n);
            assert((2 * a) * n <= (2 * b) * m);
            assert((k * n) * m <= (2 * b) * m);
        }
        assert(q * (2 * n) <= 2 * b + n) by (nonlinear_arith)
            requires
                k * n <= 2 * b,
                k == 2 * q - 1,
        ;
        let d = (2 * n) as int;
        assert(d * q == q * (2 * n)) by (nonlinear_arith)
            requires
                d == 2 * n,
        ;
        vstd::arithmetic::div_mod::lemma_div_is_ordered(d * q, (2 * b + n) as int, d);
        vstd::arithmetic::div_mod::lemma_div_multiples_vanish(q as int, d);
        assert(q <= (2 * b + n) / (2 * n));
    }
}

/// The bias never goes against the averages that the record carries: where
/// the text of the current average is above that of the older one the bias
/// is bullish, and where it is below the bias is bearish. Where the two texts
/// are equal the means may still differ by less than a unit, and the bias
/// says which way.
pub proof fn lemma_bias_agrees_with_averages(
    symbol: Seq<char>,
    candles: Seq<CandlestickView>,
    reference: Seq<CandlestickView>,
    prior: Option<TradeView>,
)
    requires
        has_history(candles, reference),
    ensures
        ({
            let t = classified(symbol, candles, reference, prior);
            &&& price_or_zero(t.cma) > price_or_zero(t.oma) ==> t.bias == Bias::Bullish
            &&& price_or_zero(t.cma) < price_or_zero(t.oma) ==> t.bias == Bias::Bearish
            &&& t.cma == price_text(moving_average(current_window(reference)) as u64)
            &&& t.oma == price_text(moving_average(older_window(reference)) as u64)
        }),
{
    let current = current_window(reference);
    let older = older_window(reference);
    let cma = moving_average(current);
    let oma = moving_average(older);
    lemma_moving_average_fits(current);
    lemma_moving_average_fits(older);
    lemma_price_text_round_trip(cma as u64);
    lemma_price_text_round_trip(oma as u64);
    let a = close_sum(current);
    let b = close_sum(older);
    if a * older.len() <= b * current.len() {
        lemma_rounding_keeps_order(a, current.len(), b, older.len());
    }
    if b * current.len() <= a * older.len() {
        lemma_rounding_keeps_order(b, older.len(), a, current.len());
    }
}

/// The mean of closes is a price.
pub proof fn lemma_moving_average_fits(candles: Seq<CandlestickView>)
    ensures
        moving_average(candles) <= u64::MAX,
{
    let sum = close_sum(candles);
    let count = candles.len();
    if count > 0 {
        lemma_close_sum_bound(candles);
        let q = sum / count;
        let r = sum % count;
        lemma_mean_fits(sum, count, q, r);
        lemma_rounded_quotient(sum, count, q, r);
    }
}

/// A record whose bias differs from that of the record admitted before it
/// carries no status.
pub proof fn lemma_bias_change_resets(
    symbol: Seq<char>,
    candles: Seq<CandlestickView>,
    reference: Seq<CandlestickView>,
    last: TradeView,
)
    requires
        classified(symbol, candles, reference, Some(last)).bias != last.bias,
    ensures
        classified(symbol, candles, reference, Some(last)).status is None,
{
}

/// A symbol without a prior record is classified without a status.
pub proof fn lemma_first_record_has_no_status(
    symbol: Seq<char>,
    candles: Seq<CandlestickView>,
    reference: Seq<CandlestickView>,
)
    ensures
        classified(symbol, candles, reference, None).status is None,
{
}

/// Classification depends on nothing but the symbol, the two histories and
/// the prior record: the same inputs give the same record, field for field.
pub proof fn lemma_classification_is_a_function(
    symbol: Seq<char>,
    candles: Seq<CandlestickView>,
    reference: Seq<CandlestickView>,
    prior: Option<TradeView>,
    other_symbol: Seq<char>,
    other_candles: Seq<CandlestickView>,
    other_reference: Seq<CandlestickView>,
    other_prior: Option<TradeView>,
)
    requires
        symbol =~= other_symbol,
        candles =~= other_candles,
        reference =~= other_reference,
        prior == other_prior,
    ensures
        classified(symbol, candles, reference, prior) == classified(
            other_symbol,
            other_candles,
            other_reference,
            other_prior,
        ),
{
}

} // verus!

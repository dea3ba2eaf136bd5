//! What the exchange is asked for: order sides and sizes, the query text of
//! an order, and its signature.
//!
//! Amounts are in units of 10^-8, as prices are. The exchange is not reached
//! from here; what is computed here is handed to the code that reaches it.

use crate::decide::OrderSide;
use crate::decimal::{
    decimal_digits, digit_char, fixed_digits, lemma_decimal_digits, lemma_digit_char, parse_price,
    parse_price_or_zero, pow10, price_or_zero, price_text, price_units, push_decimal_digits,
    push_fixed_digits, PRICE_DECIMALS, PRICE_SCALE,
};
use crate::digest::{hex_encode, lower_hex};
use crate::text::text_eq;
use hmac::Mac;
use std::time::{SystemTime, UNIX_EPOCH};
use vstd::prelude::*;
use vstd::string::*;
use vstd::utf8::encode_utf8;

verus! {

/// The least value of an order, in units of the quote asset: 20 whole units.
pub const MIN_NOTIONAL: u64 = 2_000_000_000;

/// The asset that orders are paid in.
pub const QUOTE_ASSET: &'static str = "USDT";

/// What the exchange is told to wait for a request, in milliseconds.
pub const RECV_WINDOW: &'static str = "10000";

/// Why an order is not placed.
#[derive(Clone, Copy, Debug, PartialEq, Eq, Structural)]
pub enum OrderError {
    /// The account holds no balance of the quote asset.
    BalanceNotFound,
    /// The available balance is not a readable amount.
    BalanceUnreadable,
    /// The market names no step for quantities.
    NoStepSize,
    /// The order would be worth less than the least value.
    MinimumNotional,
    /// The quantity does not fit in 64 bits of units.
    QuantityTooLarge,
}

/// One balance of the account, as the exchange reports it.
#[derive(Debug)]
pub struct BalanceResponse {
    pub asset: String,
    pub total: String,
    pub available: String,
}

/// A filter of a market, as far as it matters here.
#[derive(Debug)]
pub enum LotSizeFilter {
    /// The step that quantities are multiples of.
    LotSize { step_size: String },
    /// Any other filter.
    Other,
}

/// One market of the exchange information.
#[derive(Debug)]
pub struct SymbolInfo {
    pub filters: Vec<LotSizeFilter>,
}

/// The exchange information for the markets that were asked for.
#[derive(Debug)]
pub struct ExchangeInfoResponse {
    pub symbols: Vec<SymbolInfo>,
}

/// The step that quantities of a market are multiples of, in units.
#[derive(Clone, Copy, Debug, PartialEq, Eq, Structural)]
pub struct LotSizeInfo {
    pub step_size: u64,
}

/// Why a market has no step.
#[derive(Clone, Copy, Debug, PartialEq, Eq, Structural)]
pub enum LotSizeError {
    /// The exchange information names no market.
    SymbolNotFound,
    /// The first market has no lot size filter.
    FilterNotFound,
    /// The step of the lot size filter is not a readable amount.
    StepUnreadable,
}

/// The body of a request to open a position.
#[derive(Debug)]
pub struct OpenOrderRequest {
    pub side: String,
}

/// How a side is written to the exchange.
pub open spec fn side_name(side: OrderSide) -> Seq<char> {
    match side {
        OrderSide::Buy => "BUY"@,
        OrderSide::Sell => "SELL"@,
    }
}

/// The side that a text in upper case names.
pub open spec fn side_named(upper: Seq<char>) -> Option<OrderSide> {
    if upper == "BUY"@ {
        Some(OrderSide::Buy)
    } else if upper == "SELL"@ {
        Some(OrderSide::Sell)
    } else {
        None
    }
}

/// `text` in upper case, as `str::to_uppercase` gives it.
pub uninterp spec fn upper_case(text: Seq<char>) -> Seq<char>;

/// `str::to_uppercase`: the text with every character in upper case. The
/// result depends on the text alone.
#[verifier::external_body]
pub(crate) fn to_upper(text: &str) -> (upper: String)
    ensures
        upper@ == upper_case(text@),
{
    text.to_uppercase()
}

/// How a side is written to the exchange.
pub fn side_text(side: OrderSide) -> (name: &'static str)
    ensures
        name@ == side_name(side),
{
    match side {
        OrderSide::Buy => "BUY",
        OrderSide::Sell => "SELL",
    }
}

/// The side that a text names: `BUY` or `SELL`, in these letters.
pub fn side_from_text(upper: &str) -> (side: Option<OrderSide>)
    ensures
        side == side_named(upper@),
{
    proof {
        reveal_strlit("BUY");
        reveal_strlit("SELL");
    }
    if text_eq(upper, "BUY") {
        Some(OrderSide::Buy)
    } else if text_eq(upper, "SELL") {
        Some(OrderSide::Sell)
    } else {
        None
    }
}

impl OpenOrderRequest {
    /// The side that the request asks for, in whatever case it is written;
    /// none where it is neither `BUY` nor `SELL`.
    pub fn order_side(&self) -> (side: Option<OrderSide>)
        ensures
            side == side_named(upper_case(self.side@)),
    {
        let upper = to_upper(self.side.as_str());
        side_from_text(upper.as_str())
    }
}

/// The index of the first balance of `asset`, if there is one.
pub open spec fn first_balance_of(balances: Seq<BalanceResponse>, asset: Seq<char>) -> Option<int>
    decreases balances.len(),
{
    if balances.len() == 0 {
        None
    } else {
        match first_balance_of(balances.drop_last(), asset) {
            Some(i) => Some(i),
            None => if balances.last().asset@ == asset {
                Some(balances.len() - 1)
            } else {
                None
            },
        }
    }
}

/// The index of the first balance of `asset`.
pub fn find_balance(balances: &Vec<BalanceResponse>, asset: &str) -> (found: Option<usize>)
    ensures
        found is Some <==> first_balance_of(balances@, asset@) is Some,
        found matches Some(i) ==> first_balance_of(balances@, asset@) == Some(i as int) && i
            < balances@.len() && balances@[i as int].asset@ == asset@,
{
    let mut i: usize = 0;
    assert(balances@.subrange(0, 0) =~= Seq::<BalanceResponse>::empty());
    while i < balances.len()
        invariant
            i <= balances@.len(),
            first_balance_of(balances@.subrange(0, i as int), asset@) is None,
        decreases balances@.len() - i,
    {
        proof {
            assert(balances@.subrange(0, i + 1).drop_last() =~= balances@.subrange(0, i as int));
        }
        if text_eq(balances[i].asset.as_str(), asset) {
            proof {
                lemma_first_balance_prefix(balances@, asset@, i + 1);
            }
            return Some(i);
        }
        i = i + 1;
    }
    assert(balances@.subrange(0, i as int) =~= balances@);
    None
}

/// A balance found in a prefix is the one found in the whole list.
proof fn lemma_first_balance_prefix(balances: Seq<BalanceResponse>, asset: Seq<char>, n: int)
    requires
        0 <= n <= balances.len(),
        first_balance_of(balances.subrange(0, n), asset) is Some,
    ensures
        first_balance_of(balances, asset) == first_balance_of(balances.subrange(0, n), asset),
    decreases balances.len() - n,
{
    if n < balances.len() {
        assert(balances.subrange(0, n + 1).drop_last() =~= balances.subrange(0, n));
        lemma_first_balance_prefix(balances, asset, n + 1);
    } else {
        assert(balances.subrange(0, n) =~= balances);
    }
}

/// The balances of `asset` among `balances`, in their order.
pub open spec fn balances_of(balances: Seq<BalanceResponse>, asset: Seq<char>) -> Seq<
    BalanceResponse,
>
    decreases balances.len(),
{
    if balances.len() == 0 {
        Seq::empty()
    } else {
        let earlier = balances_of(balances.drop_last(), asset);
        if balances.last().asset@ == asset {
            earlier.push(balances.last())
        } else {
            earlier
        }
    }
}

impl Clone for BalanceResponse {
    fn clone(&self) -> (copy: Self)
        ensures
            copy == *self,
    {
        BalanceResponse {
            asset: self.asset.clone(),
            total: self.total.clone(),
            available: self.available.clone(),
        }
    }
}

/// The balances of `asset`, in their order.
pub fn filter_balances(balances: &Vec<BalanceResponse>, asset: &str) -> (kept: Vec<BalanceResponse>)
    ensures
        kept@ == balances_of(balances@, asset@),
{
    let mut kept: Vec<BalanceResponse> = Vec::new();
    let mut i: usize = 0;
    assert(balances@.subrange(0, 0) =~= Seq::<BalanceResponse>::empty());
    while i < balances.len()
        invariant
            i <= balances@.len(),
            kept@ == balances_of(balances@.subrange(0, i as int), asset@),
        decreases balances@.len() - i,
    {
        proof {
            assert(balances@.subrange(0, i + 1).drop_last() =~= balances@.subrange(0, i as int));
        }
        if text_eq(balances[i].asset.as_str(), asset) {
            kept.push(balances[i].clone());
        }
        i = i + 1;
    }
    assert(balances@.subrange(0, i as int) =~= balances@);
    kept
}

/// The step of the first lot size filter of the first market.
pub open spec fn first_step_text(filters: Seq<LotSizeFilter>) -> Option<Seq<char>>
    decreases filters.len(),
{
    if filters.len() == 0 {
        None
    } else {
        match filters[0] {
            LotSizeFilter::LotSize { step_size } => Some(step_size@),
            LotSizeFilter::Other => first_step_text(filters.drop_first()),
        }
    }
}

/// The lot size of the first market of the exchange information.
pub open spec fn lot_size_of(info: ExchangeInfoResponse) -> Result<LotSizeInfo, LotSizeError> {
    if info.symbols@.len() == 0 {
        Err(LotSizeError::SymbolNotFound)
    } else {
        match first_step_text(info.symbols@[0].filters@) {
            None => Err(LotSizeError::FilterNotFound),
            Some(text) => match price_units(text) {
                Some(step) => Ok(LotSizeInfo { step_size: step }),
                None => Err(LotSizeError::StepUnreadable),
            },
        }
    }
}

/// The lot size of the first market of the exchange information: the step of
/// its first lot size filter, in units.
pub fn get_lot_size_info(info: &ExchangeInfoResponse) -> (lot: Result<LotSizeInfo, LotSizeError>)
    ensures
        lot == lot_size_of(*info),
{
    if info.symbols.len() == 0 {
        return Err(LotSizeError::SymbolNotFound);
    }
    let filters = &info.symbols[0].filters;
    let mut i: usize = 0;
    assert(filters@.subrange(0, filters@.len() as int) =~= filters@);
    while i < filters.len()
        invariant
            i <= filters@.len(),
            info.symbols@.len() > 0,
            filters == &info.symbols@[0].filters,
            first_step_text(filters@) == first_step_text(
                filters@.subrange(i as int, filters@.len() as int),
            ),
        decreases filters@.len() - i,
    {
        let ghost rest = filters@.subrange(i as int, filters@.len() as int);
        proof {
            assert(rest[0] == filters@[i as int]);
            assert(rest.drop_first() =~= filters@.subrange(i + 1, filters@.len() as int));
        }
        match &filters[i] {
            LotSizeFilter::LotSize { step_size } => {
                return match parse_price(step_size.as_str()) {
                    Some(step) => Ok(LotSizeInfo { step_size: step }),
                    None => Err(LotSizeError::StepUnreadable),
                };
            },
            LotSizeFilter::Other => {},
        }
        i = i + 1;
    }
    Err(LotSizeError::FilterNotFound)
}

/// The greatest multiple of `step` that is not above `value`.
pub open spec fn rounded_down(value: u64, step: u64) -> nat {
    ((value as nat / step as nat) * step) as nat
}

/// Rounds a quantity down to a multiple of the step.
pub fn round_quantity(value: u64, step: u64) -> (rounded: u64)
    requires
        step > 0,
    ensures
        rounded == rounded_down(value, step),
        rounded <= value,
        rounded % step == 0,
        value - rounded < step,
{
    proof {
        vstd::arithmetic::div_mod::lemma_fundamental_div_mod(value as int, step as int);
        assert((value / step) * step == step * (value / step)) by (nonlinear_arith);
        vstd::arithmetic::div_mod::lemma_mod_multiples_basic(
            (value / step) as int,
            step as int,
        );
    }
    value - value % step
}

/// The whole steps that the available balance buys at the price.
pub open spec fn whole_steps(available: u64, price: u64, step: u64) -> nat {
    ((available as nat * PRICE_SCALE as nat) / (price as nat * step as nat)) as nat
}

/// Whether a quantity at a price is worth less than the least value.
pub open spec fn below_minimum(quantity: nat, price: u64) -> bool {
    quantity * price < MIN_NOTIONAL as nat * PRICE_SCALE as nat
}

/// The quantity of an order that spends the available balance at the price:
/// the balance divided by the price, rounded down to a multiple of the step.
/// It is refused where the market has no step, where it is worth less than
/// the least value (as at the price 0), and where it does not fit.
pub open spec fn sized_order(available: u64, price: u64, step: u64) -> Result<u64, OrderError> {
    if step == 0 {
        Err(OrderError::NoStepSize)
    } else if price == 0 {
        Err(OrderError::MinimumNotional)
    } else {
        let quantity = (whole_steps(available, price, step) * step) as nat;
        if below_minimum(quantity, price) {
            Err(OrderError::MinimumNotional)
        } else if quantity > u64::MAX {
            Err(OrderError::QuantityTooLarge)
        } else {
            Ok(quantity as u64)
        }
    }
}

/// The quantity of an order that spends `available` at `price`, all three in
/// units.
pub fn order_quantity(available: u64, price: u64, step: u64) -> (quantity: Result<u64, OrderError>)
    ensures
        quantity == sized_order(available, price, step),
{
    if step == 0 {
        return Err(OrderError::NoStepSize);
    }
    if price == 0 {
        return Err(OrderError::MinimumNotional);
    }
    assert(available * PRICE_SCALE <= 0xffff_ffff_ffff_ffff * 100_000_000) by (nonlinear_arith)
        requires
            available <= 0xffff_ffff_ffff_ffff,
            PRICE_SCALE == 100_000_000,
    ;
    assert(price * step <= 0xffff_ffff_ffff_ffff * 0xffff_ffff_ffff_ffff) by (nonlinear_arith)
        requires
            price <= 0xffff_ffff_ffff_ffff,
            step <= 0xffff_ffff_ffff_ffff,
    ;
    assert(price * step >= 1) by (nonlinear_arith)
        requires
            price >= 1,
            step >= 1,
    ;
    let funds: u128 = available as u128 * PRICE_SCALE as u128;
    let unit_cost: u128 = price as u128 * step as u128;
    let steps: u128 = funds / unit_cost;
    proof {
        vstd::arithmetic::div_mod::lemma_fundamental_div_mod(funds as int, unit_cost as int);
        assert(steps * unit_cost <= funds) by (nonlinear_arith)
            requires
                funds == unit_cost * steps + funds % unit_cost,
                funds % unit_cost >= 0,
        ;
        assert(steps * unit_cost == (steps * step) * price) by (nonlinear_arith)
            requires
                unit_cost == price * step,
        ;
        assert(steps * step <= (steps * step) * price) by (nonlinear_arith)
            requires
                price >= 1,
                steps * step >= 0,
        ;
    }
    let quantity: u128 = steps * step as u128;
    let notional: u128 = quantity * price as u128;
    if notional < MIN_NOTIONAL as u128 * PRICE_SCALE as u128 {
        Err(OrderError::MinimumNotional)
    } else if quantity > u64::MAX as u128 {
        Err(OrderError::QuantityTooLarge)
    } else {
        Ok(quantity as u64)
    }
}

/// An amount with its sign: whether it is below zero, and how far it is from
/// zero, in units.
pub struct SignedAmount {
    pub negative: bool,
    pub units: u64,
}

/// The amount that a text writes: a decimal, after a minus sign where it is
/// below zero. Text that writes no amount stands for zero.
pub open spec fn signed_amount_of(text: Seq<char>) -> SignedAmount {
    if text.len() > 0 && text[0] == '-' {
        SignedAmount { negative: true, units: price_or_zero(text.subrange(1, text.len() as int)) }
    } else {
        SignedAmount { negative: false, units: price_or_zero(text) }
    }
}

/// Reads an amount with its sign.
pub fn parse_signed_amount(text: &str) -> (amount: SignedAmount)
    ensures
        amount == signed_amount_of(text@),
{
    let n = text.unicode_len();
    if n > 0 && text.get_char(0) == '-' {
        let rest = text.substring_char(1, n);
        SignedAmount { negative: true, units: parse_price_or_zero(rest) }
    } else {
        SignedAmount { negative: false, units: parse_price_or_zero(text) }
    }
}

/// Whether a position of the given amount is open: the amount comes to at
/// least one unit, on either side of zero.
pub open spec fn is_open_amount(amount: SignedAmount) -> bool {
    amount.units != 0
}

/// Whether the position whose amount the exchange reports as `amount_text`
/// is open, so that there is something to close.
pub fn is_open_position(amount_text: &str) -> (open: bool)
    ensures
        open == is_open_amount(signed_amount_of(amount_text@)),
        !open ==> forall|step: u64|
            closing_order_of(signed_amount_of(amount_text@), step) == Ok::<
                Option<(OrderSide, u64)>,
                OrderError,
            >(None),
{
    parse_signed_amount(amount_text).units != 0
}

/// The order that closes a position of the given amount: a sale of a long
/// position, a purchase of a short one, of the amount rounded down to a
/// multiple of the step. None for an amount that comes to no unit. Where
/// there is something to close, a market without a step is an error.
pub open spec fn closing_order_of(amount: SignedAmount, step: u64) -> Result<
    Option<(OrderSide, u64)>,
    OrderError,
> {
    if amount.units == 0 {
        Ok(None)
    } else if step == 0 {
        Err(OrderError::NoStepSize)
    } else {
        Ok(
            Some(
                (
                    if amount.negative {
                        OrderSide::Buy
                    } else {
                        OrderSide::Sell
                    },
                    rounded_down(amount.units, step) as u64,
                ),
            ),
        )
    }
}

/// The order that closes a position whose amount the exchange reports as
/// `amount_text`.
pub fn closing_order(amount_text: &str, step: u64) -> (order: Result<
    Option<(OrderSide, u64)>,
    OrderError,
>)
    ensures
        order == closing_order_of(signed_amount_of(amount_text@), step),
{
    let amount = parse_signed_amount(amount_text);
    if amount.units == 0 {
        return Ok(None);
    }
    if step == 0 {
        return Err(OrderError::NoStepSize);
    }
    let side = if amount.negative {
        OrderSide::Buy
    } else {
        OrderSide::Sell
    };
    Ok(Some((side, round_quantity(amount.units, step))))
}

/// The difference between the clock of the exchange and the local clock, in
/// milliseconds, kept within 64 bits.
pub open spec fn clock_offset(server_ms: i64, local_ms: i64) -> i64 {
    let difference = server_ms - local_ms;
    if difference > i64::MAX {
        i64::MAX
    } else if difference < i64::MIN {
        i64::MIN
    } else {
        difference as i64
    }
}

/// How far the clock of the exchange is ahead of the local clock.
pub fn get_server_time_offset(server_ms: i64, local_ms: i64) -> (offset: i64)
    ensures
        offset == clock_offset(server_ms, local_ms),
{
    match server_ms.checked_sub(local_ms) {
        Some(difference) => difference,
        None => if server_ms >= 0 {
            i64::MAX
        } else {
            i64::MIN
        },
    }
}

/// The local time moved by the offset, kept within 64 bits and not below 0.
pub open spec fn shifted_time(local_ms: u64, offset_ms: i64) -> u64 {
    let shifted = local_ms + offset_ms;
    if shifted < 0 {
        0
    } else if shifted > u64::MAX {
        u64::MAX
    } else {
        shifted as u64
    }
}

/// The time to stamp a request with: the local time moved by the offset of
/// the exchange.
pub fn request_timestamp(local_ms: u64, offset_ms: i64) -> (stamp: u64)
    ensures
        stamp == shifted_time(local_ms, offset_ms),
{
    if offset_ms >= 0 {
        let ahead = offset_ms as u64;
        if local_ms > u64::MAX - ahead {
            u64::MAX
        } else {
            local_ms + ahead
        }
    } else {
        let behind: u64 = if offset_ms == i64::MIN {
            0x8000_0000_0000_0000
        } else {
            (-offset_ms) as u64
        };
        if behind > local_ms {
            0
        } else {
            local_ms - behind
        }
    }
}

/// `SystemTime::now`, as whole milliseconds since the Unix epoch; 0 where
/// the clock stands before the epoch, `u64::MAX` where the count does not
/// fit. Nothing is claimed of the value.
#[verifier::external_body]
pub(crate) fn get_timestamp() -> u64 {
    match SystemTime::now().duration_since(UNIX_EPOCH) {
        Ok(elapsed) => u64::try_from(elapsed.as_millis()).unwrap_or(u64::MAX),
        Err(_) => 0,
    }
}

/// The time to stamp a request with now, given the offset of the exchange.
pub fn current_request_timestamp(offset_ms: i64) -> (stamp: u64)
    ensures
        exists|local_ms: u64| stamp == #[trigger] shifted_time(local_ms, offset_ms),
{
    let local_ms = get_timestamp();
    let stamp = request_timestamp(local_ms, offset_ms);
    assert(stamp == shifted_time(local_ms, offset_ms));
    stamp
}

/// `s` without the zeros at its end.
pub open spec fn without_trailing_zeros(s: Seq<char>) -> Seq<char>
    decreases s.len(),
{
    if s.len() > 0 && s.last() == '0' {
        without_trailing_zeros(s.drop_last())
    } else {
        s
    }
}

/// An amount as the exchange takes it: as a price is written, without the
/// zeros at the end of the fraction, and without the point where no
/// fraction is left.
pub open spec fn amount_text(amount: u64) -> Seq<char> {
    let trimmed = without_trailing_zeros(price_text(amount));
    if trimmed.len() > 0 && trimmed.last() == '.' {
        trimmed.drop_last()
    } else {
        trimmed
    }
}

proof fn lemma_trailing_zero_digits(front: Seq<char>, width: nat)
    ensures
        without_trailing_zeros(front + fixed_digits(0, width)) == without_trailing_zeros(front),
    decreases width,
{
    if width == 0 {
        assert(front + fixed_digits(0, width) =~= front);
    } else {
        let shorter = fixed_digits(0, (width - 1) as nat);
        assert(fixed_digits(0, width) == shorter.push('0'));
        assert((front + fixed_digits(0, width)).drop_last() =~= front + shorter);
        lemma_trailing_zero_digits(front, (width - 1) as nat);
    }
}

proof fn lemma_trailing_zero_step(front: Seq<char>, fraction: nat, width: nat)
    requires
        width > 0,
        fraction % 10 == 0,
    ensures
        without_trailing_zeros(front + fixed_digits(fraction, width)) == without_trailing_zeros(
            front + fixed_digits(fraction / 10, (width - 1) as nat),
        ),
{
    let shorter = fixed_digits(fraction / 10, (width - 1) as nat);
    assert(fixed_digits(fraction, width) == shorter.push('0'));
    assert((front + fixed_digits(fraction, width)).drop_last() =~= front + shorter);
}

/// Writes an amount as the exchange takes it.
pub fn format_amount(amount: u64) -> (text: String)
    ensures
        text@ == amount_text(amount),
{
    let whole = amount / PRICE_SCALE;
    let mut fraction = amount % PRICE_SCALE;
    let mut text = String::new();
    push_decimal_digits(&mut text, whole);
    let ghost digits = decimal_digits(whole as nat);
    let ghost front = digits + seq!['.'];
    proof {
        lemma_decimal_digits(whole as nat);
        assert(price_text(amount) =~= front + fixed_digits(fraction as nat, PRICE_DECIMALS as nat));
        assert(pow10(8) == 100_000_000) by {
            reveal_with_fuel(pow10, 9);
        }
    }
    if fraction == 0 {
        proof {
            lemma_trailing_zero_digits(front, PRICE_DECIMALS as nat);
            assert(front.last() == '.');
            assert(front.drop_last() =~= digits);
        }
        return text;
    }
    let mut width: usize = PRICE_DECIMALS;
    while fraction % 10 == 0
        invariant
            0 < fraction < pow10(width as nat),
            width <= PRICE_DECIMALS,
            without_trailing_zeros(price_text(amount)) == without_trailing_zeros(
                front + fixed_digits(fraction as nat, width as nat),
            ),
        decreases fraction,
    {
        proof {
            lemma_trailing_zero_step(front, fraction as nat, width as nat);
        }
        fraction = fraction / 10;
        width = width - 1;
    }
    text.push('.');
    push_fixed_digits(&mut text, fraction, width);
    proof {
        let written = front + fixed_digits(fraction as nat, width as nat);
        lemma_digit_char((fraction % 10) as nat);
        assert(written.last() == digit_char((fraction % 10) as nat));
        assert(text@ =~= written);
    }
    text
}

/// Whether the form encoding leaves a byte as it is: letters and digits of
/// ASCII, and `* - . _`.
pub open spec fn keeps_form_byte(b: u8) -> bool {
    b == 0x2a || b == 0x2d || b == 0x2e || b == 0x5f || (0x30 <= b <= 0x39) || (0x41 <= b
        <= 0x5a) || (0x61 <= b <= 0x7a)
}

/// The upper-case hexadecimal digit for `d`.
pub open spec fn upper_hex_digit(d: nat) -> char {
    if d < 10 {
        ('0' as nat + d) as char
    } else {
        ('A' as nat + (d - 10)) as char
    }
}

/// What the form encoding writes for a byte: the byte itself where it is
/// kept, `+` for a space, and `%` with two hexadecimal digits otherwise.
pub open spec fn form_byte(b: u8) -> Seq<char> {
    if keeps_form_byte(b) {
        seq![b as char]
    } else if b == 0x20 {
        seq!['+']
    } else {
        seq!['%', upper_hex_digit(b as nat / 16), upper_hex_digit(b as nat % 16)]
    }
}

/// The form encoding of a run of bytes.
pub open spec fn form_bytes(bytes: Seq<u8>) -> Seq<char>
    decreases bytes.len(),
{
    if bytes.len() == 0 {
        Seq::empty()
    } else {
        form_bytes(bytes.drop_last()) + form_byte(bytes.last())
    }
}

/// A name and a value in form encoding, with `=` between them.
pub open spec fn form_pair(pair: (Seq<char>, Seq<char>)) -> Seq<char> {
    form_bytes(encode_utf8(pair.0)) + seq!['='] + form_bytes(encode_utf8(pair.1))
}

/// Pairs of names and values as `application/x-www-form-urlencoded` text:
/// the pairs in their order, with `&` between them.
pub open spec fn form_text(pairs: Seq<(Seq<char>, Seq<char>)>) -> Seq<char>
    decreases pairs.len(),
{
    if pairs.len() == 0 {
        Seq::empty()
    } else if pairs.len() == 1 {
        form_pair(pairs[0])
    } else {
        form_text(pairs.drop_last()) + seq!['&'] + form_pair(pairs.last())
    }
}

/// The views of a run of pairs.
pub open spec fn pair_views(pairs: Seq<(String, String)>) -> Seq<(Seq<char>, Seq<char>)> {
    pairs.map_values(|p: (String, String)| (p.0@, p.1@))
}

/// `url::form_urlencoded::Serializer` on an empty string, fed with the pairs
/// in their order: each name and value byte by byte, letters, digits and
/// `* - . _` as they are, a space as `+`, any other byte as `%` and two
/// upper-case hexadecimal digits; `=` inside a pair and `&` between pairs.
#[verifier::external_body]
pub(crate) fn form_encode(pairs: &Vec<(String, String)>) -> (text: String)
    ensures
        text@ == form_text(pair_views(pairs@)),
{
    url::form_urlencoded::Serializer::new(String::new()).extend_pairs(pairs.iter()).finish()
}

/// The pairs of a market order, in the order in which they are sent.
pub open spec fn order_pairs(
    symbol: Seq<char>,
    side: OrderSide,
    quantity: Seq<char>,
    timestamp: u64,
    reduce_only: bool,
) -> Seq<(Seq<char>, Seq<char>)> {
    seq![("symbol"@, symbol), ("side"@, side_name(side)), ("type"@, "MARKET"@)] + (if reduce_only {
        seq![("reduceOnly"@, "true"@)]
    } else {
        Seq::empty()
    }) + seq![
        ("quantity"@, quantity),
        ("recvWindow"@, "10000"@),
        ("timestamp"@, decimal_digits(timestamp as nat)),
    ]
}

fn pair_of(name: &str, value: &str) -> (pair: (String, String))
    ensures
        pair.0@ == name@,
        pair.1@ == value@,
{
    (name.to_owned(), value.to_owned())
}

/// The query text of a market order.
pub fn order_query(
    symbol: &str,
    side: OrderSide,
    quantity: &str,
    timestamp: u64,
    reduce_only: bool,
) -> (query: String)
    ensures
        query@ == form_text(order_pairs(symbol@, side, quantity@, timestamp, reduce_only)),
{
    let mut stamp = String::new();
    push_decimal_digits(&mut stamp, timestamp);
    let mut pairs: Vec<(String, String)> = Vec::new();
    pairs.push(pair_of("symbol", symbol));
    pairs.push(pair_of("side", side_text(side)));
    pairs.push(pair_of("type", "MARKET"));
    if reduce_only {
        pairs.push(pair_of("reduceOnly", "true"));
    }
    pairs.push(pair_of("quantity", quantity));
    pairs.push(pair_of("recvWindow", RECV_WINDOW));
    pairs.push(pair_of("timestamp", stamp.as_str()));
    assert(pair_views(pairs@) =~= order_pairs(symbol@, side, quantity@, timestamp, reduce_only));
    form_encode(&pairs)
}

/// The HMAC-SHA256 code of a message under a key.
pub uninterp spec fn hmac_sha256(key: Seq<u8>, message: Seq<u8>) -> Seq<u8>;

/// `hmac::Hmac<sha2::Sha256>`: keyed with `key`, fed with `message`, and
/// finalized. The code depends on the key and the message alone; a key of
/// any length is taken.
#[verifier::external_body]
pub(crate) fn hmac_code(key: &[u8], message: &[u8]) -> (code: Vec<u8>)
    ensures
        code@ == hmac_sha256(key@, message@),
{
    match hmac::Hmac::<sha2::Sha256>::new_from_slice(key) {
        Ok(mut mac) => {
            mac.update(message);
            mac.finalize().into_bytes().to_vec()
        },
        Err(_) => Vec::new(),
    }
}

/// The signature of a query: its HMAC-SHA256 code under the secret, in
/// lower-case hexadecimal.
pub fn sign_query(query: &str, secret: &str) -> (signature: String)
    ensures
        signature@ == lower_hex(hmac_sha256(encode_utf8(secret@), encode_utf8(query@))),
{
    let code = hmac_code(secret.as_bytes(), query.as_bytes());
    hex_encode(code.as_slice())
}

/// A query with its signature appended.
pub fn signed_query(query: &str, signature: &str) -> (signed: String)
    ensures
        signed@ == query@ + "&signature="@ + signature@,
{
    let mut signed = query.to_owned();
    signed.append("&signature=");
    signed.append(signature);
    signed
}

/// An order that is ready to be signed and sent.
#[derive(Debug)]
pub struct PlannedOrder {
    pub side: OrderSide,
    pub quantity: u64,
    pub query: String,
}

/// The quantity that the account can open a position with: what its first
/// balance of the quote asset buys at the price.
pub open spec fn affordable_quantity(balances: Seq<BalanceResponse>, price: u64, step: u64) -> Result<
    u64,
    OrderError,
> {
    match first_balance_of(balances, QUOTE_ASSET@) {
        None => Err(OrderError::BalanceNotFound),
        Some(i) => match price_units(balances[i].available@) {
            None => Err(OrderError::BalanceUnreadable),
            Some(available) => sized_order(available, price, step),
        },
    }
}

/// Plans the market order that opens a position on `side` with all that the
/// account has available of the quote asset.
pub fn plan_future_order(
    symbol: &str,
    side: OrderSide,
    balances: &Vec<BalanceResponse>,
    price: u64,
    lot: LotSizeInfo,
    timestamp: u64,
) -> (plan: Result<PlannedOrder, OrderError>)
    ensures
        match affordable_quantity(balances@, price, lot.step_size) {
            Err(e) => plan == Err::<PlannedOrder, OrderError>(e),
            Ok(quantity) => plan matches Ok(order) && order.side == side && order.quantity
                == quantity && order.query@ == form_text(
                order_pairs(symbol@, side, amount_text(quantity), timestamp, false),
            ),
        },
{
    let found = find_balance(balances, QUOTE_ASSET);
    let available = match found {
        None => {
            return Err(OrderError::BalanceNotFound);
        },
        Some(i) => match parse_price(balances[i].available.as_str()) {
            None => {
                return Err(OrderError::BalanceUnreadable);
            },
            Some(available) => available,
        },
    };
    match order_quantity(available, price, lot.step_size) {
        Err(e) => Err(e),
        Ok(quantity) => {
            let text = format_amount(quantity);
            Ok(
                PlannedOrder {
                    side,
                    quantity,
                    query: order_query(symbol, side, text.as_str(), timestamp, false),
                },
            )
        },
    }
}

/// Plans the market order that closes a position whose amount the exchange
/// reports as `position_amount`; none where there is nothing to close.
pub fn plan_closing_order(symbol: &str, position_amount: &str, lot: LotSizeInfo, timestamp: u64) -> (plan:
    Result<Option<PlannedOrder>, OrderError>)
    ensures
        match closing_order_of(signed_amount_of(position_amount@), lot.step_size) {
            Err(e) => plan == Err::<Option<PlannedOrder>, OrderError>(e),
            Ok(None) => plan matches Ok(None),
            Ok(Some((side, quantity))) => plan matches Ok(Some(order)) && order.side == side
                && order.quantity == quantity && order.query@ == form_text(
                order_pairs(symbol@, side, amount_text(quantity), timestamp, true),
            ),
        },
{
    match closing_order(position_amount, lot.step_size) {
        Err(e) => Err(e),
        Ok(None) => Ok(None),
        Ok(Some((side, quantity))) => {
            let text = format_amount(quantity);
            Ok(
                Some(
                    PlannedOrder {
                        side,
                        quantity,
                        query: order_query(symbol, side, text.as_str(), timestamp, true),
                    },
                ),
            )
        },
    }
}

} // verus!

//! The candle source: from the rows that the exchange sends to candles.
//!
//! The exchange sends each candle as an array of twelve values in a fixed
//! order: open time, open, high, low, close, volume, close time, quote asset
//! volume, number of trades, taker buy base volume, taker buy quote volume,
//! and a value to ignore. The three counts are whole numbers, the rest is
//! text. A reply with a row of any other shape is malformed as a whole.

use crate::dto::{Candlestick, CandlestickView};
use crate::trade::candle_views;
use vstd::prelude::*;
use vstd::string::*;

verus! {

/// One value of a row.
#[derive(Debug)]
pub enum JsonField {
    /// A whole number that fits in 64 bits.
    Number(u64),
    /// A string.
    Text(String),
    /// Anything else.
    Other,
}

/// A [`JsonField`] with its text as a sequence of characters.
pub enum FieldView {
    Number(u64),
    Text(Seq<char>),
    Other,
}

impl View for JsonField {
    type V = FieldView;

    open spec fn view(&self) -> FieldView {
        match self {
            JsonField::Number(n) => FieldView::Number(*n),
            JsonField::Text(s) => FieldView::Text(s@),
            JsonField::Other => FieldView::Other,
        }
    }
}

/// Why no candles came back.
#[derive(Clone, Copy, Debug, PartialEq, Eq, Structural)]
pub enum SourceError {
    /// The exchange could not be reached.
    SourceUnavailable,
    /// The reply does not have the shape of candles.
    SourceMalformed,
}

/// The number of values in a row.
pub const ROW_LEN: usize = 12;

/// The views of the values of a row.
pub open spec fn field_views(row: Seq<JsonField>) -> Seq<FieldView> {
    row.map_values(|f: JsonField| f@)
}

/// Whether a row has the shape of a candle: twelve values, whole numbers
/// for the two times and the number of trades, text for the rest.
pub open spec fn is_candle_row(row: Seq<FieldView>) -> bool {
    &&& row.len() == ROW_LEN
    &&& row[0] is Number
    &&& row[1] is Text
    &&& row[2] is Text
    &&& row[3] is Text
    &&& row[4] is Text
    &&& row[5] is Text
    &&& row[6] is Number
    &&& row[7] is Text
    &&& row[8] is Number
    &&& row[9] is Text
    &&& row[10] is Text
    &&& row[11] is Text
}

/// The candle that a row of that shape holds.
pub open spec fn candle_of_row(row: Seq<FieldView>) -> CandlestickView {
    CandlestickView {
        open_time: row[0]->Number_0,
        open_price: row[1]->Text_0,
        high_price: row[2]->Text_0,
        low_price: row[3]->Text_0,
        close_price: row[4]->Text_0,
        volume: row[5]->Text_0,
        close_time: row[6]->Number_0,
        quote_asset_volume: row[7]->Text_0,
        number_of_trades: row[8]->Number_0,
        taker_buy_base_asset_volume: row[9]->Text_0,
        taker_buy_quote_asset_volume: row[10]->Text_0,
        ignore: row[11]->Text_0,
    }
}

/// The views of the rows of a reply.
pub open spec fn row_views(rows: Seq<Vec<JsonField>>) -> Seq<Seq<FieldView>> {
    rows.map_values(|row: Vec<JsonField>| field_views(row@))
}

/// Whether every row of a reply has the shape of a candle.
pub open spec fn all_candle_rows(rows: Seq<Seq<FieldView>>) -> bool {
    forall|i: int| 0 <= i < rows.len() ==> is_candle_row(#[trigger] rows[i])
}

/// The candles of a reply whose rows all have the shape of a candle.
pub open spec fn candles_of_rows(rows: Seq<Seq<FieldView>>) -> Seq<CandlestickView> {
    rows.map_values(|row: Seq<FieldView>| candle_of_row(row))
}

fn number_at(row: &Vec<JsonField>, i: usize) -> (n: Option<u64>)
    requires
        i < row@.len(),
    ensures
        n is Some <==> field_views(row@)[i as int] is Number,
        n matches Some(v) ==> field_views(row@)[i as int] == FieldView::Number(v),
{
    match &row[i] {
        JsonField::Number(v) => Some(*v),
        _ => None,
    }
}

fn text_at(row: &Vec<JsonField>, i: usize) -> (s: Option<String>)
    requires
        i < row@.len(),
    ensures
        s is Some <==> field_views(row@)[i as int] is Text,
        s matches Some(v) ==> field_views(row@)[i as int] == FieldView::Text(v@),
{
    match &row[i] {
        JsonField::Text(v) => Some(v.clone()),
        _ => None,
    }
}

/// The candle that a row holds; none where the row has another shape.
pub fn decode_candlestick(row: &Vec<JsonField>) -> (candle: Option<Candlestick>)
    ensures
        candle is Some <==> is_candle_row(field_views(row@)),
        candle matches Some(c) ==> c@ == candle_of_row(field_views(row@)),
{
    let ghost fields = field_views(row@);
    if row.len() != ROW_LEN {
        return None;
    }
    let open_time = number_at(row, 0);
    let open_price = text_at(row, 1);
    let high_price = text_at(row, 2);
    let low_price = text_at(row, 3);
    let close_price = text_at(row, 4);
    let volume = text_at(row, 5);
    let close_time = number_at(row, 6);
    let quote_asset_volume = text_at(row, 7);
    let number_of_trades = number_at(row, 8);
    let taker_base = text_at(row, 9);
    let taker_quote = text_at(row, 10);
    let ignore = text_at(row, 11);
    match (
        open_time,
        open_price,
        high_price,
        low_price,
        close_price,
        volume,
        close_time,
        quote_asset_volume,
        number_of_trades,
        taker_base,
        taker_quote,
        ignore,
    ) {
        (
            Some(open_time),
            Some(open_price),
            Some(high_price),
            Some(low_price),
            Some(close_price),
            Some(volume),
            Some(close_time),
            Some(quote_asset_volume),
            Some(number_of_trades),
            Some(taker_buy_base_asset_volume),
            Some(taker_buy_quote_asset_volume),
            Some(ignore),
        ) => {
            Some(
                Candlestick {
                    open_time,
                    open_price,
                    high_price,
                    low_price,
                    close_price,
                    volume,
                    close_time,
                    quote_asset_volume,
                    number_of_trades,
                    taker_buy_base_asset_volume,
                    taker_buy_quote_asset_volume,
                    ignore,
                },
            )
        },
        _ => None,
    }
}

/// The candles of a reply, in the order of its rows. The reply is malformed
/// as soon as one row does not have the shape of a candle.
pub fn decode_candlesticks(rows: &Vec<Vec<JsonField>>) -> (candles: Result<
    Vec<Candlestick>,
    SourceError,
>)
    ensures
        candles is Ok <==> all_candle_rows(row_views(rows@)),
        candles matches Ok(list) ==> candle_views(list@) == candles_of_rows(row_views(rows@)),
        candles matches Err(e) ==> e == SourceError::SourceMalformed,
{
    let ghost views = row_views(rows@);
    let mut list: Vec<Candlestick> = Vec::new();
    let mut i: usize = 0;
    while i < rows.len()
        invariant
            i <= rows@.len(),
            views == row_views(rows@),
            list@.len() == i,
            forall|j: int| 0 <= j < i ==> is_candle_row(#[trigger] views[j]),
            forall|j: int| 0 <= j < i ==> (#[trigger] list@[j])@ == candle_of_row(views[j]),
        decreases rows@.len() - i,
    {
        assert(views[i as int] == field_views(rows@[i as int]@));
        match decode_candlestick(&rows[i]) {
            Some(candle) => {
                list.push(candle);
            },
            None => {
                return Err(SourceError::SourceMalformed);
            },
        }
        i = i + 1;
    }
    assert(candle_views(list@) =~= candles_of_rows(views));
    Ok(list)
}

} // verus!

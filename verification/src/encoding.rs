//! The canonical text of a trade record: the JSON object that a block's hash
//! is taken over.
//!
//! The object holds the fields of the record in the order of the schema, with
//! no white space. Text fields are JSON strings; the bias is the name of its
//! variant as a string, with `"None"` for the neutral bias; the status is the
//! name of its variant as a string, or `null` where it is absent; the sample
//! count is a number in base ten. Inside a string the quotation mark, the
//! reverse solidus and the control characters below U+0020 are escaped (the
//! short forms `\b \t \n \f \r` where JSON has one, `\u00xx` otherwise);
//! every other character stands for itself.

use crate::decimal::{decimal_digits, push_decimal_digits};
use crate::digest::hex_digit;
use crate::dto::{Bias, Trade, TradeStatus, TradeView};
use vstd::prelude::*;
use vstd::std_specs::iter::IteratorSpec;
use vstd::string::*;

verus! {

/// What stands for `c` inside a JSON string.
pub open spec fn escaped_char(c: char) -> Seq<char> {
    if c == '"' {
        seq!['\\', '"']
    } else if c == '\\' {
        seq!['\\', '\\']
    } else if c == '\u{8}' {
        seq!['\\', 'b']
    } else if c == '\t' {
        seq!['\\', 't']
    } else if c == '\n' {
        seq!['\\', 'n']
    } else if c == '\u{c}' {
        seq!['\\', 'f']
    } else if c == '\r' {
        seq!['\\', 'r']
    } else if (c as nat) < 0x20 {
        seq!['\\', 'u', '0', '0', hex_digit(c as nat / 16), hex_digit(c as nat % 16)]
    } else {
        seq![c]
    }
}

/// The characters of `s`, each escaped.
pub open spec fn json_escape(s: Seq<char>) -> Seq<char>
    decreases s.len(),
{
    if s.len() == 0 {
        Seq::empty()
    } else {
        json_escape(s.drop_last()) + escaped_char(s.last())
    }
}

/// `s` as a JSON string, quotation marks included.
pub open spec fn json_string(s: Seq<char>) -> Seq<char> {
    seq!['"'] + json_escape(s) + seq!['"']
}

/// The name that the canonical text gives a bias.
pub open spec fn bias_name(bias: Bias) -> Seq<char> {
    match bias {
        Bias::Bullish => "Bullish"@,
        Bias::Bearish => "Bearish"@,
        Bias::Neutral => "None"@,
    }
}

/// The name that the canonical text gives a status.
pub open spec fn status_name(status: TradeStatus) -> Seq<char> {
    match status {
        TradeStatus::InZone7 => "InZone7"@,
        TradeStatus::OutZone5 => "OutZone5"@,
        TradeStatus::PrepareZone1 => "PrepareZone1"@,
        TradeStatus::InZone3 => "InZone3"@,
        TradeStatus::PrepareZone1Long => "PrepareZone1Long"@,
        TradeStatus::LongZone3 => "LongZone3"@,
        TradeStatus::TargetLongZone7 => "TargetLongZone7"@,
        TradeStatus::InZone1 => "InZone1"@,
        TradeStatus::OutZone3 => "OutZone3"@,
        TradeStatus::PrepareZone7 => "PrepareZone7"@,
        TradeStatus::InZone5 => "InZone5"@,
        TradeStatus::PrepareZone7Short => "PrepareZone7Short"@,
        TradeStatus::ShortZone5 => "ShortZone5"@,
        TradeStatus::TargetShortZone1 => "TargetShortZone1"@,
    }
}

/// The JSON value of an optional status.
pub open spec fn status_json(status: Option<TradeStatus>) -> Seq<char> {
    match status {
        None => "null"@,
        Some(s) => json_string(status_name(s)),
    }
}

/// The canonical JSON text of a trade record.
#[verifier::opaque]
pub open spec fn canonical_json(t: TradeView) -> Seq<char> {
    "{\"symbol\":"@ + json_string(t.symbol) + ",\"current_price\":"@ + json_string(
        t.current_price,
    ) + ",\"cma\":"@ + json_string(t.cma) + ",\"oma\":"@ + json_string(t.oma) + ",\"bias\":"@
        + json_string(bias_name(t.bias)) + ",\"status\":"@ + status_json(t.status)
        + ",\"zone_min\":"@ + json_string(t.zone_min) + ",\"zone_1\":"@ + json_string(t.zone_1)
        + ",\"zone_2\":"@ + json_string(t.zone_2) + ",\"zone_3\":"@ + json_string(t.zone_3)
        + ",\"zone_4\":"@ + json_string(t.zone_4) + ",\"zone_5\":"@ + json_string(t.zone_5)
        + ",\"zone_6\":"@ + json_string(t.zone_6) + ",\"zone_7\":"@ + json_string(t.zone_7)
        + ",\"zone_max\":"@ + json_string(t.zone_max) + ",\"of\":"@ + decimal_digits(t.of) + "}"@
}

/// The name that the canonical text gives a bias.
pub fn bias_text(bias: Bias) -> (name: &'static str)
    ensures
        name@ == bias_name(bias),
{
    match bias {
        Bias::Bullish => "Bullish",
        Bias::Bearish => "Bearish",
        Bias::Neutral => "None",
    }
}

/// The name that the canonical text gives a status.
pub fn status_text(status: TradeStatus) -> (name: &'static str)
    ensures
        name@ == status_name(status),
{
    match status {
        TradeStatus::InZone7 => "InZone7",
        TradeStatus::OutZone5 => "OutZone5",
        TradeStatus::PrepareZone1 => "PrepareZone1",
        TradeStatus::InZone3 => "InZone3",
        TradeStatus::PrepareZone1Long => "PrepareZone1Long",
        TradeStatus::LongZone3 => "LongZone3",
        TradeStatus::TargetLongZone7 => "TargetLongZone7",
        TradeStatus::InZone1 => "InZone1",
        TradeStatus::OutZone3 => "OutZone3",
        TradeStatus::PrepareZone7 => "PrepareZone7",
        TradeStatus::InZone5 => "InZone5",
        TradeStatus::PrepareZone7Short => "PrepareZone7Short",
        TradeStatus::ShortZone5 => "ShortZone5",
        TradeStatus::TargetShortZone1 => "TargetShortZone1",
    }
}

fn hex_digit_char(d: u8) -> (c: char)
    requires
        d < 16,
    ensures
        c == hex_digit(d as nat),
{
    if d < 10 {
        (0x30 + d) as char
    } else {
        (0x61 + (d - 10)) as char
    }
}

fn push_escaped_char(out: &mut String, c: char)
    ensures
        final(out)@ == old(out)@ + escaped_char(c),
{
    let ghost before = out@;
    if c == '"' {
        out.push('\\');
        out.push('"');
    } else if c == '\\' {
        out.push('\\');
        out.push('\\');
    } else if c == '\u{8}' {
        out.push('\\');
        out.push('b');
    } else if c == '\t' {
        out.push('\\');
        out.push('t');
    } else if c == '\n' {
        out.push('\\');
        out.push('n');
    } else if c == '\u{c}' {
        out.push('\\');
        out.push('f');
    } else if c == '\r' {
        out.push('\\');
        out.push('r');
    } else if (c as u32) < 0x20 {
        let code: u8 = c as u8;
        out.push('\\');
        out.push('u');
        out.push('0');
        out.push('0');
        out.push(hex_digit_char(code / 16));
        out.push(hex_digit_char(code % 16));
    } else {
        out.push(c);
    }
    assert(out@ =~= before + escaped_char(c));
}

/// Appends `s` to `out` as a JSON string.
pub fn push_json_string(out: &mut String, s: &str)
    ensures
        final(out)@ == old(out)@ + json_string(s@),
{
    broadcast use group_string_axioms;

    let ghost before = out@;
    out.push('"');
    let mut chars = s.chars();
    let ghost mut done: int = 0;
    loop
        invariant
            0 <= done <= s@.len(),
            chars.remaining() == s@.subrange(done, s@.len() as int),
            out@ == before + seq!['"'] + json_escape(s@.subrange(0, done)),
        ensures
            done == s@.len(),
        decreases s@.len() - done,
    {
        match chars.next() {
            Some(c) => {
                proof {
                    assert(c == s@[done]);
                    assert(s@.subrange(0, done + 1).drop_last() =~= s@.subrange(0, done));
                    assert(s@.subrange(done, s@.len() as int).drop_first() =~= s@.subrange(
                        done + 1,
                        s@.len() as int,
                    ));
                }
                push_escaped_char(out, c);
                proof {
                    done = done + 1;
                }
            },
            None => {
                break;
            },
        }
    }
    assert(s@.subrange(0, done) =~= s@);
    out.push('"');
    assert(out@ =~= before + json_string(s@));
}

/// The canonical JSON text of `trade`.
pub fn to_canonical_json(trade: &Trade) -> (text: String)
    ensures
        text@ == canonical_json(trade@),
{
    reveal(canonical_json);
    let mut out = String::new();
    out.append("{\"symbol\":");
    push_json_string(&mut out, trade.symbol.as_str());
    out.append(",\"current_price\":");
    push_json_string(&mut out, trade.current_price.as_str());
    out.append(",\"cma\":");
    push_json_string(&mut out, trade.cma.as_str());
    out.append(",\"oma\":");
    push_json_string(&mut out, trade.oma.as_str());
    out.append(",\"bias\":");
    push_json_string(&mut out, bias_text(trade.bias));
    out.append(",\"status\":");
    match trade.status {
        None => {
            out.append("null");
        },
        Some(s) => {
            push_json_string(&mut out, status_text(s));
        },
    }
    out.append(",\"zone_min\":");
    push_json_string(&mut out, trade.zone_min.as_str());
    out.append(",\"zone_1\":");
    push_json_string(&mut out, trade.zone_1.as_str());
    out.append(",\"zone_2\":");
    push_json_string(&mut out, trade.zone_2.as_str());
    out.append(",\"zone_3\":");
    push_json_string(&mut out, trade.zone_3.as_str());
    out.append(",\"zone_4\":");
    push_json_string(&mut out, trade.zone_4.as_str());
    out.append(",\"zone_5\":");
    push_json_string(&mut out, trade.zone_5.as_str());
    out.append(",\"zone_6\":");
    push_json_string(&mut out, trade.zone_6.as_str());
    out.append(",\"zone_7\":");
    push_json_string(&mut out, trade.zone_7.as_str());
    out.append(",\"zone_max\":");
    push_json_string(&mut out, trade.zone_max.as_str());
    out.append(",\"of\":");
    push_decimal_digits(&mut out, trade.of as u64);
    out.append("}");
    assert(out@ =~= canonical_json(trade@));
    out
}

} // verus!

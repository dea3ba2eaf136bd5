//! What validation detects.
//!
//! The bytes that a block's hash is taken over determine the block's index,
//! timestamp, trade record and previous hash. So a block whose contents were
//! changed hashes differently, unless SHA-256 gives two different inputs the
//! same digest; and a chain with such a block fails validation wherever
//! validation looks at the block.

use crate::blockchain::{
    be_bytes, block_preimage, block_sealed, chain_linked, link_holds, BlockView,
};
use crate::decimal::{decimal_digits, is_digit, lemma_decimal_digits};
use crate::digest::{hex_digit, lemma_lower_hex_injective, sha256};
use crate::dto::{Bias, TradeStatus, TradeView};
use crate::encoding::{
    bias_name, canonical_json, escaped_char, json_escape, json_string, status_json, status_name,
};
use crate::text::lemma_utf8_injective;
use vstd::prelude::*;
use vstd::utf8::encode_utf8;

verus! {

/// The UTF-8 bytes of two texts in a row are those of the first followed by
/// those of the second.
pub proof fn lemma_utf8_concat(a: Seq<char>, b: Seq<char>)
    ensures
        encode_utf8(a + b) == encode_utf8(a) + encode_utf8(b),
    decreases a.len(),
{
    if a.len() == 0 {
        assert(a + b =~= b);
        assert(encode_utf8(a) + encode_utf8(b) =~= encode_utf8(b));
    } else {
        lemma_utf8_concat(a.drop_first(), b);
        assert((a + b).drop_first() =~= a.drop_first() + b);
        assert((a + b)[0] == a[0]);
        assert(encode_utf8(a + b) =~= encode_utf8(a) + encode_utf8(b));
    }
}

/// What stands after a common start is the same.
pub proof fn lemma_cancel_prefix<A>(k: Seq<A>, x: Seq<A>, y: Seq<A>)
    requires
        k + x == k + y,
    ensures
        x == y,
{
    assert((k + x).len() == k.len() + x.len());
    assert((k + y).len() == k.len() + y.len());
    assert(x.len() == y.len());
    assert forall|i: int| 0 <= i < x.len() implies x[i] == y[i] by {
        assert((k + x)[k.len() + i] == x[i]);
        assert((k + y)[k.len() + i] == y[i]);
    }
    assert(x =~= y);
}

/// Eight bytes, most significant first, determine the number.
pub proof fn lemma_be_bytes_injective(x: u64, y: u64)
    requires
        be_bytes(x) == be_bytes(y),
    ensures
        x == y,
{
    let a = be_bytes(x);
    let b = be_bytes(y);
    assert(a[0] == b[0]);
    assert(a[1] == b[1]);
    assert(a[2] == b[2]);
    assert(a[3] == b[3]);
    assert(a[4] == b[4]);
    assert(a[5] == b[5]);
    assert(a[6] == b[6]);
    assert(a[7] == b[7]);
    lemma_be_bytes_value(x);
    lemma_be_bytes_value(y);
}

/// The number that eight bytes write, most significant first.
pub open spec fn be_value(bytes: Seq<u8>) -> int {
    bytes[0] * 0x100_0000_0000_0000 + bytes[1] * 0x1_0000_0000_0000 + bytes[2] * 0x100_0000_0000
        + bytes[3] * 0x1_0000_0000 + bytes[4] * 0x100_0000 + bytes[5] * 0x1_0000 + bytes[6]
        * 0x100 + bytes[7]
}

proof fn lemma_be_bytes_value(x: u64)
    ensures
        be_value(be_bytes(x)) == x,
{
    let b = be_bytes(x);
    assert(b[0] == x / 0x100_0000_0000_0000);
    assert(b[1] == x / 0x1_0000_0000_0000 % 0x100);
    assert(b[2] == x / 0x100_0000_0000 % 0x100);
    assert(b[3] == x / 0x1_0000_0000 % 0x100);
    assert(b[4] == x / 0x100_0000 % 0x100);
    assert(b[5] == x / 0x1_0000 % 0x100);
    assert(b[6] == x / 0x100 % 0x100);
    assert(b[7] == x % 0x100);
    assert(x / 0x100 / 0x100 == x / 0x1_0000);
    assert(x / 0x1_0000 / 0x100 == x / 0x100_0000);
    assert(x / 0x100_0000 / 0x100 == x / 0x1_0000_0000);
    assert(x / 0x1_0000_0000 / 0x100 == x / 0x100_0000_0000);
    assert(x / 0x100_0000_0000 / 0x100 == x / 0x1_0000_0000_0000);
    assert(x / 0x1_0000_0000_0000 / 0x100 == x / 0x100_0000_0000_0000);
}

/// Escaping goes character by character from the front as well.
pub proof fn lemma_escape_first(s: Seq<char>)
    requires
        s.len() > 0,
    ensures
        json_escape(s) == escaped_char(s[0]) + json_escape(s.drop_first()),
    decreases s.len(),
{
    if s.len() == 1 {
        assert(json_escape(s.drop_last()) =~= Seq::<char>::empty());
        assert(json_escape(s.drop_first()) =~= Seq::<char>::empty());
        assert(json_escape(s) =~= escaped_char(s[0]) + json_escape(s.drop_first()));
    } else {
        let front = s.drop_last();
        lemma_escape_first(front);
        assert(front.drop_first() =~= s.drop_first().drop_last());
        assert(s.drop_first().last() == s.last());
        assert(json_escape(s) =~= escaped_char(s[0]) + json_escape(s.drop_first()));
    }
}

/// No escape is the start of another, and each stands for one character: two
/// texts that start with an escape and are equal start with the same
/// character and go on in the same way.
pub proof fn lemma_escaped_char_prefix(c: char, x: Seq<char>, d: char, y: Seq<char>)
    requires
        escaped_char(c) + x == escaped_char(d) + y,
    ensures
        c == d,
        x == y,
{
    let ec = escaped_char(c);
    let ed = escaped_char(d);
    let left = ec + x;
    let right = ed + y;
    assert(left[0] == ec[0]);
    assert(right[0] == ed[0]);
    if ec.len() >= 2 {
        assert(left[1] == ec[1]);
    }
    if ed.len() >= 2 {
        assert(right[1] == ed[1]);
    }
    if ec.len() == 6 {
        assert(left[4] == ec[4]);
        assert(left[5] == ec[5]);
    }
    if ed.len() == 6 {
        assert(right[4] == ed[4]);
        assert(right[5] == ed[5]);
    }
    if ec.len() == 6 && ed.len() == 6 {
        let hc = c as nat / 16;
        let lc = c as nat % 16;
        let hd = d as nat / 16;
        let ld = d as nat % 16;
        assert(hex_digit(hc) == hex_digit(hd));
        assert(hex_digit(lc) == hex_digit(ld));
        crate::digest::lemma_hex_digit_injective(hc, hd);
        crate::digest::lemma_hex_digit_injective(lc, ld);
        assert(c as nat == d as nat);
    }
    assert(c == d);
    lemma_cancel_prefix(ec, x, y);
}

/// An escaped text is over where the first bare quotation mark stands.
pub proof fn lemma_escape_delimited(a: Seq<char>, x: Seq<char>, b: Seq<char>, y: Seq<char>)
    requires
        json_escape(a) + x == json_escape(b) + y,
        x.len() > 0 && x[0] == '"',
        y.len() > 0 && y[0] == '"',
    ensures
        a == b,
        x == y,
    decreases a.len(),
{
    if a.len() == 0 {
        assert(json_escape(a) + x =~= x);
        if b.len() > 0 {
            lemma_escape_first(b);
            let right = json_escape(b) + y;
            assert(right[0] == escaped_char(b[0])[0]);
            assert(false);
        }
        assert(json_escape(b) + y =~= y);
        assert(a =~= b);
    } else if b.len() == 0 {
        assert(json_escape(b) + y =~= y);
        lemma_escape_first(a);
        let left = json_escape(a) + x;
        assert(left[0] == escaped_char(a[0])[0]);
        assert(false);
    } else {
        lemma_escape_first(a);
        lemma_escape_first(b);
        let rest_a = json_escape(a.drop_first()) + x;
        let rest_b = json_escape(b.drop_first()) + y;
        assert(json_escape(a) + x =~= escaped_char(a[0]) + rest_a);
        assert(json_escape(b) + y =~= escaped_char(b[0]) + rest_b);
        lemma_escaped_char_prefix(a[0], rest_a, b[0], rest_b);
        lemma_escape_delimited(a.drop_first(), x, b.drop_first(), y);
        assert(a =~= seq![a[0]] + a.drop_first());
        assert(b =~= seq![b[0]] + b.drop_first());
    }
}

/// A JSON string is over at its closing quotation mark: two texts that
/// start with a JSON string and are equal hold the same string and go on in
/// the same way.
pub proof fn lemma_json_string_delimited(a: Seq<char>, x: Seq<char>, b: Seq<char>, y: Seq<char>)
    requires
        json_string(a) + x == json_string(b) + y,
    ensures
        a == b,
        x == y,
{
    let quote = seq!['"'];
    let after_a = quote + x;
    let after_b = quote + y;
    assert(json_string(a) + x =~= quote + (json_escape(a) + after_a));
    assert(json_string(b) + y =~= quote + (json_escape(b) + after_b));
    lemma_cancel_prefix(quote, json_escape(a) + after_a, json_escape(b) + after_b);
    lemma_escape_delimited(a, after_a, b, after_b);
    lemma_cancel_prefix(quote, x, y);
}

/// A number in base ten is over where the first character that is no digit
/// stands.
pub proof fn lemma_digits_delimited(n: nat, x: Seq<char>, m: nat, y: Seq<char>)
    requires
        decimal_digits(n) + x == decimal_digits(m) + y,
        x.len() > 0 && !is_digit(x[0]),
        y.len() > 0 && !is_digit(y[0]),
    ensures
        n == m,
        x == y,
{
    let dn = decimal_digits(n);
    let dm = decimal_digits(m);
    lemma_decimal_digits(n);
    lemma_decimal_digits(m);
    let left = dn + x;
    let right = dm + y;
    if dn.len() < dm.len() {
        assert(left[dn.len() as int] == x[0]);
        assert(right[dn.len() as int] == dm[dn.len() as int]);
        assert(false);
    }
    if dm.len() < dn.len() {
        assert(right[dm.len() as int] == y[0]);
        assert(left[dm.len() as int] == dn[dm.len() as int]);
        assert(false);
    }
    assert forall|i: int| 0 <= i < dn.len() implies dn[i] == dm[i] by {
        assert(left[i] == dn[i]);
        assert(right[i] == dm[i]);
    }
    assert(dn =~= dm);
    lemma_cancel_prefix(dn, x, y);
}

/// The three names of the bias differ.
pub proof fn lemma_bias_name_injective(a: Bias, b: Bias)
    requires
        bias_name(a) == bias_name(b),
    ensures
        a == b,
{
    reveal_strlit("Bullish");
    reveal_strlit("Bearish");
    reveal_strlit("None");
    assert("Bullish"@[1] == 'u');
    assert("Bearish"@[1] == 'e');
    assert("None"@[1] == 'o');
    assert(bias_name(a)[1] == bias_name(b)[1]);
}

/// The length of a status name, and its first and last characters: enough to
/// tell the statuses apart.
pub open spec fn name_marks(name: Seq<char>) -> (nat, char, char) {
    (name.len(), name[0], name[name.len() - 1])
}

/// The fourteen names of the statuses differ.
pub proof fn lemma_status_name_injective(a: TradeStatus, b: TradeStatus)
    requires
        status_name(a) == status_name(b),
    ensures
        a == b,
{
    lemma_status_name_marks(a);
    lemma_status_name_marks(b);
}

proof fn lemma_status_name_marks(s: TradeStatus)
    ensures
        name_marks(status_name(s)) == match s {
            TradeStatus::InZone7 => (7nat, 'I', '7'),
            TradeStatus::OutZone5 => (8nat, 'O', '5'),
            TradeStatus::PrepareZone1 => (12nat, 'P', '1'),
            TradeStatus::InZone3 => (7nat, 'I', '3'),
            TradeStatus::PrepareZone1Long => (16nat, 'P', 'g'),
            TradeStatus::LongZone3 => (9nat, 'L', '3'),
            TradeStatus::TargetLongZone7 => (15nat, 'T', '7'),
            TradeStatus::InZone1 => (7nat, 'I', '1'),
            TradeStatus::OutZone3 => (8nat, 'O', '3'),
            TradeStatus::PrepareZone7 => (12nat, 'P', '7'),
            TradeStatus::InZone5 => (7nat, 'I', '5'),
            TradeStatus::PrepareZone7Short => (17nat, 'P', 't'),
            TradeStatus::ShortZone5 => (10nat, 'S', '5'),
            TradeStatus::TargetShortZone1 => (16nat, 'T', '1'),
        },
{
    reveal_strlit("InZone7");
    reveal_strlit("OutZone5");
    reveal_strlit("PrepareZone1");
    reveal_strlit("InZone3");
    reveal_strlit("PrepareZone1Long");
    reveal_strlit("LongZone3");
    reveal_strlit("TargetLongZone7");
    reveal_strlit("InZone1");
    reveal_strlit("OutZone3");
    reveal_strlit("PrepareZone7");
    reveal_strlit("InZone5");
    reveal_strlit("PrepareZone7Short");
    reveal_strlit("ShortZone5");
    reveal_strlit("TargetShortZone1");
}

/// The JSON value of a status is over where it ends: two texts that start
/// with one and are equal hold the same status and go on in the same way.
pub proof fn lemma_status_json_delimited(
    a: Option<TradeStatus>,
    x: Seq<char>,
    b: Option<TradeStatus>,
    y: Seq<char>,
)
    requires
        status_json(a) + x == status_json(b) + y,
    ensures
        a == b,
        x == y,
{
    reveal_strlit("null");
    let left = status_json(a) + x;
    let right = status_json(b) + y;
    assert(left[0] == status_json(a)[0]);
    assert(right[0] == status_json(b)[0]);
    match (a, b) {
        (None, None) => {
            lemma_cancel_prefix("null"@, x, y);
        },
        (Some(s), Some(t)) => {
            lemma_json_string_delimited(status_name(s), x, status_name(t), y);
            lemma_status_name_injective(s, t);
        },
        (None, Some(t)) => {
            assert(json_string(status_name(t))[0] == '"');
            assert(false);
        },
        (Some(s), None) => {
            assert(json_string(status_name(s))[0] == '"');
            assert(false);
        },
    }
}

/// The canonical JSON text of a record, piece by piece: each key with its
/// punctuation, then its value.
pub open spec fn json_pieces(t: TradeView) -> Seq<Seq<char>> {
    seq![
        "{\"symbol\":"@,
        json_string(t.symbol),
        ",\"current_price\":"@,
        json_string(t.current_price),
        ",\"cma\":"@,
        json_string(t.cma),
        ",\"oma\":"@,
        json_string(t.oma),
        ",\"bias\":"@,
        json_string(bias_name(t.bias)),
        ",\"status\":"@,
        status_json(t.status),
        ",\"zone_min\":"@,
        json_string(t.zone_min),
        ",\"zone_1\":"@,
        json_string(t.zone_1),
        ",\"zone_2\":"@,
        json_string(t.zone_2),
        ",\"zone_3\":"@,
        json_string(t.zone_3),
        ",\"zone_4\":"@,
        json_string(t.zone_4),
        ",\"zone_5\":"@,
        json_string(t.zone_5),
        ",\"zone_6\":"@,
        json_string(t.zone_6),
        ",\"zone_7\":"@,
        json_string(t.zone_7),
        ",\"zone_max\":"@,
        json_string(t.zone_max),
        ",\"of\":"@,
        decimal_digits(t.of),
        "}"@,
    ]
}

/// The pieces from `from` on, one after the other, and then `rest`.
pub open spec fn pieces_then(pieces: Seq<Seq<char>>, from: int, rest: Seq<char>) -> Seq<char>
    decreases pieces.len() - from,
{
    if from < 0 || from >= pieces.len() {
        rest
    } else {
        pieces[from] + pieces_then(pieces, from + 1, rest)
    }
}

/// Putting one more piece in front.
proof fn lemma_pieces_step(pieces: Seq<Seq<char>>, from: int, rest: Seq<char>)
    requires
        0 <= from < pieces.len(),
    ensures
        pieces_then(pieces, from, rest) == pieces[from] + pieces_then(pieces, from + 1, rest),
{
}

/// The first `count` pieces, one after the other.
pub open spec fn pieces_before(pieces: Seq<Seq<char>>, count: int) -> Seq<char>
    decreases count,
{
    if count <= 0 {
        Seq::empty()
    } else {
        pieces_before(pieces, count - 1) + pieces[count - 1]
    }
}

/// Pieces can be put together from either end.
proof fn lemma_pieces_split(pieces: Seq<Seq<char>>, count: int, rest: Seq<char>)
    requires
        0 <= count <= pieces.len(),
    ensures
        pieces_before(pieces, count) + pieces_then(pieces, count, rest) == pieces_then(
            pieces,
            0,
            rest,
        ),
    decreases count,
{
    if count == 0 {
        assert(pieces_before(pieces, 0) + pieces_then(pieces, 0, rest) =~= pieces_then(
            pieces,
            0,
            rest,
        ));
    } else {
        lemma_pieces_split(pieces, count - 1, rest);
        lemma_pieces_step(pieces, count - 1, rest);
        assert((pieces_before(pieces, count - 1) + pieces[count - 1]) + pieces_then(
            pieces,
            count,
            rest,
        ) =~= pieces_before(pieces, count - 1) + (pieces[count - 1] + pieces_then(
            pieces,
            count,
            rest,
        )));
    }
}

/// The pieces of a record, put together from the front, are its canonical
/// JSON text.
proof fn lemma_json_from_front(t: TradeView)
    ensures
        canonical_json(t) == pieces_before(json_pieces(t), 33),
{
    reveal(canonical_json);
    let p = json_pieces(t);
    assert(pieces_before(p, 0) =~= Seq::<char>::empty());
    assert(pieces_before(p, 1) =~= p[0]);
    assert(pieces_before(p, 2) == pieces_before(p, 1) + p[1]);
    assert(pieces_before(p, 3) == pieces_before(p, 2) + p[2]);
    assert(pieces_before(p, 4) == pieces_before(p, 3) + p[3]);
    assert(pieces_before(p, 5) == pieces_before(p, 4) + p[4]);
    assert(pieces_before(p, 6) == pieces_before(p, 5) + p[5]);
    assert(pieces_before(p, 7) == pieces_before(p, 6) + p[6]);
    assert(pieces_before(p, 8) == pieces_before(p, 7) + p[7]);
    assert(pieces_before(p, 9) == pieces_before(p, 8) + p[8]);
    assert(pieces_before(p, 10) == pieces_before(p, 9) + p[9]);
    assert(pieces_before(p, 11) == pieces_before(p, 10) + p[10]);
    assert(pieces_before(p, 12) == pieces_before(p, 11) + p[11]);
    assert(pieces_before(p, 13) == pieces_before(p, 12) + p[12]);
    assert(pieces_before(p, 14) == pieces_before(p, 13) + p[13]);
    assert(pieces_before(p, 15) == pieces_before(p, 14) + p[14]);
    assert(pieces_before(p, 16) == pieces_before(p, 15) + p[15]);
    assert(pieces_before(p, 17) == pieces_before(p, 16) + p[16]);
    assert(pieces_before(p, 18) == pieces_before(p, 17) + p[17]);
    assert(pieces_before(p, 19) == pieces_before(p, 18) + p[18]);
    assert(pieces_before(p, 20) == pieces_before(p, 19) + p[19]);
    assert(pieces_before(p, 21) == pieces_before(p, 20) + p[20]);
    assert(pieces_before(p, 22) == pieces_before(p, 21) + p[21]);
    assert(pieces_before(p, 23) == pieces_before(p, 22) + p[22]);
    assert(pieces_before(p, 24) == pieces_before(p, 23) + p[23]);
    assert(pieces_before(p, 25) == pieces_before(p, 24) + p[24]);
    assert(pieces_before(p, 26) == pieces_before(p, 25) + p[25]);
    assert(pieces_before(p, 27) == pieces_before(p, 26) + p[26]);
    assert(pieces_before(p, 28) == pieces_before(p, 27) + p[27]);
    assert(pieces_before(p, 29) == pieces_before(p, 28) + p[28]);
    assert(pieces_before(p, 30) == pieces_before(p, 29) + p[29]);
    assert(pieces_before(p, 31) == pieces_before(p, 30) + p[30]);
    assert(pieces_before(p, 32) == pieces_before(p, 31) + p[31]);
    assert(pieces_before(p, 33) == pieces_before(p, 32) + p[32]);
}

/// The pieces of a record make up its canonical JSON text.
pub proof fn lemma_json_is_pieces(t: TradeView, rest: Seq<char>)
    ensures
        canonical_json(t) + rest == pieces_then(json_pieces(t), 0, rest),
{
    let p = json_pieces(t);
    lemma_json_from_front(t);
    lemma_pieces_split(p, 33, rest);
}

/// Takes a key and the string after it off the front of two equal texts.
proof fn lemma_peel_string(
    p: Seq<Seq<char>>,
    q: Seq<Seq<char>>,
    k: int,
    x: Seq<char>,
    y: Seq<char>,
    a: Seq<char>,
    b: Seq<char>,
)
    requires
        0 <= k,
        k + 1 < p.len(),
        k + 1 < q.len(),
        p[k] == q[k],
        p[k + 1] == json_string(a),
        q[k + 1] == json_string(b),
        pieces_then(p, k, x) == pieces_then(q, k, y),
    ensures
        a == b,
        pieces_then(p, k + 2, x) == pieces_then(q, k + 2, y),
{
    lemma_pieces_step(p, k, x);
    lemma_pieces_step(q, k, y);
    lemma_pieces_step(p, k + 1, x);
    lemma_pieces_step(q, k + 1, y);
    lemma_cancel_prefix(p[k], pieces_then(p, k + 1, x), pieces_then(q, k + 1, y));
    lemma_json_string_delimited(a, pieces_then(p, k + 2, x), b, pieces_then(q, k + 2, y));
}

/// The canonical JSON text determines the record, also where other text
/// follows it: two records whose texts, each followed by some text, are
/// equal are the same record, followed by the same text.
pub proof fn lemma_canonical_json_injective(t: TradeView, x: Seq<char>, u: TradeView, y: Seq<char>)
    requires
        canonical_json(t) + x == canonical_json(u) + y,
    ensures
        t == u,
        x == y,
{
    let p = json_pieces(t);
    let q = json_pieces(u);
    lemma_json_is_pieces(t, x);
    lemma_json_is_pieces(u, y);
    lemma_peel_string(p, q, 0, x, y, t.symbol, u.symbol);
    lemma_peel_string(p, q, 2, x, y, t.current_price, u.current_price);
    lemma_peel_string(p, q, 4, x, y, t.cma, u.cma);
    lemma_peel_string(p, q, 6, x, y, t.oma, u.oma);
    lemma_peel_string(p, q, 8, x, y, bias_name(t.bias), bias_name(u.bias));
    lemma_bias_name_injective(t.bias, u.bias);
    assert(t.status == u.status && pieces_then(p, 12, x) == pieces_then(q, 12, y)) by {
        lemma_pieces_step(p, 10, x);
        lemma_pieces_step(q, 10, y);
        lemma_pieces_step(p, 11, x);
        lemma_pieces_step(q, 11, y);
        lemma_cancel_prefix(p[10], pieces_then(p, 11, x), pieces_then(q, 11, y));
        lemma_status_json_delimited(
            t.status,
            pieces_then(p, 12, x),
            u.status,
            pieces_then(q, 12, y),
        );
    }
    lemma_peel_string(p, q, 12, x, y, t.zone_min, u.zone_min);
    lemma_peel_string(p, q, 14, x, y, t.zone_1, u.zone_1);
    lemma_peel_string(p, q, 16, x, y, t.zone_2, u.zone_2);
    lemma_peel_string(p, q, 18, x, y, t.zone_3, u.zone_3);
    lemma_peel_string(p, q, 20, x, y, t.zone_4, u.zone_4);
    lemma_peel_string(p, q, 22, x, y, t.zone_5, u.zone_5);
    lemma_peel_string(p, q, 24, x, y, t.zone_6, u.zone_6);
    lemma_peel_string(p, q, 26, x, y, t.zone_7, u.zone_7);
    lemma_peel_string(p, q, 28, x, y, t.zone_max, u.zone_max);
    assert(t.of == u.of && x == y) by {
        reveal_strlit("}");
        lemma_pieces_step(p, 30, x);
        lemma_pieces_step(q, 30, y);
        lemma_pieces_step(p, 31, x);
        lemma_pieces_step(q, 31, y);
        lemma_pieces_step(p, 32, x);
        lemma_pieces_step(q, 32, y);
        lemma_cancel_prefix(p[30], pieces_then(p, 31, x), pieces_then(q, 31, y));
        let after_t = pieces_then(p, 32, x);
        let after_u = pieces_then(q, 32, y);
        assert(after_t[0] == '}');
        assert(after_u[0] == '}');
        lemma_digits_delimited(t.of, after_t, u.of, after_u);
        lemma_cancel_prefix("}"@, x, y);
    }
}

/// The bytes that a block's hash is taken over determine the index, the
/// timestamp, the trade record and the previous hash.
pub proof fn lemma_block_preimage_injective(
    index: u64,
    timestamp: u64,
    trade: TradeView,
    previous_hash: Seq<char>,
    other_index: u64,
    other_timestamp: u64,
    other_trade: TradeView,
    other_previous_hash: Seq<char>,
)
    requires
        block_preimage(index, timestamp, trade, previous_hash) == block_preimage(
            other_index,
            other_timestamp,
            other_trade,
            other_previous_hash,
        ),
    ensures
        index == other_index,
        timestamp == other_timestamp,
        trade == other_trade,
        previous_hash == other_previous_hash,
{
    let text = canonical_json(trade) + previous_hash;
    let other_text = canonical_json(other_trade) + other_previous_hash;
    let left = block_preimage(index, timestamp, trade, previous_hash);
    let right = block_preimage(other_index, other_timestamp, other_trade, other_previous_hash);
    lemma_utf8_concat(canonical_json(trade), previous_hash);
    lemma_utf8_concat(canonical_json(other_trade), other_previous_hash);
    assert(left =~= be_bytes(index) + (be_bytes(timestamp) + encode_utf8(text)));
    assert(right =~= be_bytes(other_index) + (be_bytes(other_timestamp) + encode_utf8(
        other_text,
    )));
    assert(be_bytes(index) =~= left.subrange(0, 8));
    assert(be_bytes(other_index) =~= right.subrange(0, 8));
    lemma_be_bytes_injective(index, other_index);
    lemma_cancel_prefix(
        be_bytes(index),
        be_bytes(timestamp) + encode_utf8(text),
        be_bytes(other_timestamp) + encode_utf8(other_text),
    );
    assert(be_bytes(timestamp) =~= (be_bytes(timestamp) + encode_utf8(text)).subrange(0, 8));
    assert(be_bytes(other_timestamp) =~= (be_bytes(other_timestamp) + encode_utf8(
        other_text,
    )).subrange(0, 8));
    lemma_be_bytes_injective(timestamp, other_timestamp);
    lemma_cancel_prefix(be_bytes(timestamp), encode_utf8(text), encode_utf8(other_text));
    lemma_utf8_injective(text, other_text);
    lemma_canonical_json_injective(trade, previous_hash, other_trade, other_previous_hash);
}

/// What a block holds besides its hash.
pub open spec fn same_contents(a: BlockView, b: BlockView) -> bool {
    a.index == b.index && a.timestamp == b.timestamp && a.trade == b.trade && a.previous_hash
        == b.previous_hash
}

/// SHA-256 tells the contents of two blocks apart: it does not give their
/// bytes the same digest unless the bytes are the same.
pub open spec fn digests_differ(a: BlockView, b: BlockView) -> bool {
    let bytes_a = block_preimage(a.index, a.timestamp, a.trade, a.previous_hash);
    let bytes_b = block_preimage(b.index, b.timestamp, b.trade, b.previous_hash);
    bytes_a != bytes_b ==> sha256(bytes_a) != sha256(bytes_b)
}

/// A block with changed contents and its old hash is not sealed any more,
/// as long as SHA-256 tells the old contents from the new.
pub proof fn lemma_changed_contents_unseal(block: BlockView, forged: BlockView)
    requires
        block_sealed(block),
        forged.hash == block.hash,
        !same_contents(block, forged),
        digests_differ(block, forged),
    ensures
        !block_sealed(forged),
{
    let bytes = block_preimage(block.index, block.timestamp, block.trade, block.previous_hash);
    let forged_bytes = block_preimage(
        forged.index,
        forged.timestamp,
        forged.trade,
        forged.previous_hash,
    );
    if bytes == forged_bytes {
        lemma_block_preimage_injective(
            block.index,
            block.timestamp,
            block.trade,
            block.previous_hash,
            forged.index,
            forged.timestamp,
            forged.trade,
            forged.previous_hash,
        );
    }
    if block_sealed(forged) {
        lemma_lower_hex_injective(sha256(bytes), sha256(forged_bytes));
    }
}

/// Changing the index, the timestamp, the trade record or the previous hash
/// of any block but the first makes validation fail, as long as SHA-256
/// tells the old contents from the new.
pub proof fn lemma_changed_contents_detected(chain: Seq<BlockView>, i: int, forged: BlockView)
    requires
        chain_linked(chain),
        1 <= i < chain.len(),
        forged.hash == chain[i].hash,
        !same_contents(chain[i], forged),
        digests_differ(chain[i], forged),
    ensures
        !chain_linked(chain.update(i, forged)),
{
    assert(link_holds(chain, i));
    lemma_changed_contents_unseal(chain[i], forged);
    assert(!link_holds(chain.update(i, forged), i));
}

/// Changing the hash of a block makes validation fail, unless the block is
/// the only one of its chain: the block is no longer sealed, or the next
/// block no longer names its hash.
pub proof fn lemma_changed_hash_detected(chain: Seq<BlockView>, i: int, forged: BlockView)
    requires
        chain_linked(chain),
        0 <= i < chain.len(),
        chain.len() >= 2,
        same_contents(chain[i], forged),
        forged.hash != chain[i].hash,
    ensures
        !chain_linked(chain.update(i, forged)),
{
    let changed = chain.update(i, forged);
    if i >= 1 {
        assert(link_holds(chain, i));
        assert(!link_holds(changed, i));
    } else {
        assert(link_holds(chain, 1));
        assert(!link_holds(changed, 1));
    }
}

} // verus!

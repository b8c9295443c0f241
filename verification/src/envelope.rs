//! The wire envelope of a clipboard change: a JSON text frame of the exact
//! shape `{"payload":{"Text":{"content":"..."}}}` or
//! `{"payload":{"Image":{"width":W,"height":H}}}`, serialized and parsed by
//! verified code, with the round trip `deserialize(serialize(n)) == n` proved
//! for every notification.

use vstd::prelude::*;
use crate::codec::CodecError;

verus! {

pub const QUOTE: u8 = 0x22;

pub const BACKSLASH: u8 = 0x5c;

pub const DIGIT_0: u8 = 0x30;

pub const DIGIT_9: u8 = 0x39;

pub const HEX_A: u8 = 0x61;

pub const HEX_F: u8 = 0x66;

pub const LOWER_U: u8 = 0x75;

/// Mathematical model of a change notification.
pub enum NotificationModel {
    Text { content: Seq<u8> },
    Image { width: u64, height: u64 },
}

/// A clipboard change as it travels in a text frame: either the new text
/// content, or the dimensions of an image whose compressed pixel bytes follow
/// in a separate binary frame.
#[derive(Debug, PartialEq, Eq)]
pub enum ChangeNotification {
    Text { content: Vec<u8> },
    Image { width: u64, height: u64 },
}

impl View for ChangeNotification {
    type V = NotificationModel;

    open spec fn view(&self) -> NotificationModel {
        match self {
            ChangeNotification::Text { content } => NotificationModel::Text { content: content@ },
            ChangeNotification::Image { width, height } => NotificationModel::Image {
                width: *width,
                height: *height,
            },
        }
    }
}

// The fixed pieces of the envelope, as byte sequences.
// 0x7b `{`  0x7d `}`  0x22 `"`  0x3a `:`  0x2c `,`

/// `{"payload":{`
pub open spec fn env_open() -> Seq<u8> {
    seq![0x7b, 0x22, 0x70, 0x61, 0x79, 0x6c, 0x6f, 0x61, 0x64, 0x22, 0x3a, 0x7b]
}

/// `"Text":{"content":"`
pub open spec fn text_tag() -> Seq<u8> {
    seq![
        0x22,
        0x54,
        0x65,
        0x78,
        0x74,
        0x22,
        0x3a,
        0x7b,
        0x22,
        0x63,
        0x6f,
        0x6e,
        0x74,
        0x65,
        0x6e,
        0x74,
        0x22,
        0x3a,
        0x22,
    ]
}

/// `"Image":{"width":`
pub open spec fn image_tag() -> Seq<u8> {
    seq![
        0x22,
        0x49,
        0x6d,
        0x61,
        0x67,
        0x65,
        0x22,
        0x3a,
        0x7b,
        0x22,
        0x77,
        0x69,
        0x64,
        0x74,
        0x68,
        0x22,
        0x3a,
    ]
}

/// `,"height":`
pub open spec fn image_mid() -> Seq<u8> {
    seq![0x2c, 0x22, 0x68, 0x65, 0x69, 0x67, 0x68, 0x74, 0x22, 0x3a]
}

/// `}}}`
pub open spec fn braces3() -> Seq<u8> {
    seq![0x7d, 0x7d, 0x7d]
}

// String escaping.

pub open spec fn is_digit(b: u8) -> bool {
    DIGIT_0 <= b <= DIGIT_9
}

pub open spec fn is_hex_lower(b: u8) -> bool {
    is_digit(b) || (HEX_A <= b <= HEX_F)
}

/// The lowercase hex digit for a value below 16.
pub open spec fn hex_digit(v: u8) -> u8 {
    if v < 10 {
        (DIGIT_0 + v) as u8
    } else {
        (HEX_A + (v - 10)) as u8
    }
}

/// The value of a lowercase hex digit.
pub open spec fn hex_val(b: u8) -> u8 {
    if b <= DIGIT_9 {
        (b - DIGIT_0) as u8
    } else {
        (b - HEX_A + 10) as u8
    }
}

/// How one content byte appears inside the JSON string: quote and backslash
/// escaped, control bytes as `\u00xy`, everything else literally.
pub open spec fn escape_byte(b: u8) -> Seq<u8> {
    if b == QUOTE {
        seq![BACKSLASH, QUOTE]
    } else if b == BACKSLASH {
        seq![BACKSLASH, BACKSLASH]
    } else if b < 0x20 {
        seq![BACKSLASH, LOWER_U, DIGIT_0, DIGIT_0, hex_digit(b / 16), hex_digit(b % 16)]
    } else {
        seq![b]
    }
}

pub open spec fn escape_bytes(s: Seq<u8>) -> Seq<u8>
    decreases s.len(),
{
    if s.len() == 0 {
        Seq::empty()
    } else {
        escape_byte(s[0]) + escape_bytes(s.skip(1))
    }
}

// Decimal digits.

/// The canonical decimal digits of `n`, most significant first.
pub open spec fn digits_of(n: u64) -> Seq<u8>
    decreases n,
{
    if n < 10 {
        seq![(DIGIT_0 + n) as u8]
    } else {
        digits_of(n / 10) + seq![(DIGIT_0 + (n % 10)) as u8]
    }
}

/// The serialized envelope of a notification.
pub open spec fn spec_serialize(n: NotificationModel) -> Seq<u8> {
    match n {
        NotificationModel::Text { content } => env_open() + text_tag() + escape_bytes(content)
            + seq![QUOTE] + braces3(),
        NotificationModel::Image { width, height } => env_open() + image_tag() + digits_of(width)
            + image_mid() + digits_of(height) + braces3(),
    }
}

// Executable serialization.

/// Appends the escape sequence of one content byte.
fn push_escaped_byte(out: &mut Vec<u8>, b: u8)
    ensures
        final(out)@ == old(out)@ + escape_byte(b),
{
    if b == QUOTE {
        out.push(BACKSLASH);
        out.push(QUOTE);
    } else if b == BACKSLASH {
        out.push(BACKSLASH);
        out.push(BACKSLASH);
    } else if b < 0x20 {
        out.push(BACKSLASH);
        out.push(LOWER_U);
        out.push(DIGIT_0);
        out.push(DIGIT_0);
        let hi = b / 16;
        let lo = b % 16;
        out.push(if hi < 10 { DIGIT_0 + hi } else { HEX_A + (hi - 10) });
        out.push(if lo < 10 { DIGIT_0 + lo } else { HEX_A + (lo - 10) });
    } else {
        out.push(b);
    }
    proof {
        assert(out@ =~= old(out)@ + escape_byte(b));
    }
}

/// Concatenation distributes over escaping.
pub proof fn lemma_escape_bytes_append(a: Seq<u8>, b: Seq<u8>)
    ensures
        escape_bytes(a + b) == escape_bytes(a) + escape_bytes(b),
    decreases a.len(),
{
    if a.len() == 0 {
        assert(a + b =~= b);
        assert(escape_bytes(a) + escape_bytes(b) =~= escape_bytes(b));
    } else {
        assert((a + b).skip(1) =~= a.skip(1) + b);
        lemma_escape_bytes_append(a.skip(1), b);
        assert(escape_byte((a + b)[0]) + (escape_bytes(a.skip(1)) + escape_bytes(b)) =~= (
        escape_byte(a[0]) + escape_bytes(a.skip(1))) + escape_bytes(b));
    }
}

/// Appends the escaped form of the whole content.
fn push_escaped(out: &mut Vec<u8>, content: &Vec<u8>)
    ensures
        final(out)@ == old(out)@ + escape_bytes(content@),
{
    let mut i: usize = 0;
    while i < content.len()
        invariant
            i <= content.len(),
            out@ == old(out)@ + escape_bytes(content@.take(i as int)),
        decreases content.len() - i,
    {
        push_escaped_byte(out, content[i]);
        proof {
            assert(content@.take(i + 1) =~= content@.take(i as int) + seq![content@[i as int]]);
            lemma_escape_bytes_append(content@.take(i as int), seq![content@[i as int]]);
            assert(seq![content@[i as int]].skip(1) =~= Seq::<u8>::empty());
            assert(escape_bytes(seq![content@[i as int]]) =~= escape_byte(content@[i as int])
                + escape_bytes(Seq::<u8>::empty()));
            assert(escape_byte(content@[i as int]) + Seq::<u8>::empty() =~= escape_byte(
                content@[i as int],
            ));
            assert(old(out)@ + escape_bytes(content@.take(i + 1)) =~= (old(out)@ + escape_bytes(
                content@.take(i as int),
            )) + escape_byte(content@[i as int]));
        }
        i += 1;
    }
    proof {
        assert(content@.take(content@.len() as int) =~= content@);
    }
}

/// Appends the canonical decimal digits of `n`.
fn push_digits(out: &mut Vec<u8>, n: u64)
    ensures
        final(out)@ == old(out)@ + digits_of(n),
    decreases n,
{
    if n < 10 {
        out.push(DIGIT_0 + (n as u8));
        proof {
            assert(out@ =~= old(out)@ + digits_of(n));
        }
    } else {
        push_digits(out, n / 10);
        out.push(DIGIT_0 + ((n % 10) as u8));
        proof {
            assert(out@ =~= old(out)@ + digits_of(n));
        }
    }
}

/// The serialized text frame announcing a clipboard change: exactly
/// `{"payload":{"Text":{"content":"..."}}}` for text, exactly
/// `{"payload":{"Image":{"width":W,"height":H}}}` for an image header.
pub fn serialize_notification(n: &ChangeNotification) -> (r: Vec<u8>)
    ensures
        r@ == spec_serialize(n@),
{
    let mut out: Vec<u8> = Vec::new();
    out.push(0x7b);
    out.push(0x22);
    out.push(0x70);
    out.push(0x61);
    out.push(0x79);
    out.push(0x6c);
    out.push(0x6f);
    out.push(0x61);
    out.push(0x64);
    out.push(0x22);
    out.push(0x3a);
    out.push(0x7b);
    proof {
        assert(out@ =~= env_open());
    }
    match n {
        ChangeNotification::Text { content } => {
            let ghost mid0 = out@;
            out.push(0x22);
            out.push(0x54);
            out.push(0x65);
            out.push(0x78);
            out.push(0x74);
            out.push(0x22);
            out.push(0x3a);
            out.push(0x7b);
            out.push(0x22);
            out.push(0x63);
            out.push(0x6f);
            out.push(0x6e);
            out.push(0x74);
            out.push(0x65);
            out.push(0x6e);
            out.push(0x74);
            out.push(0x22);
            out.push(0x3a);
            out.push(0x22);
            proof {
                assert(out@ =~= mid0 + text_tag());
            }
            push_escaped(&mut out, content);
            out.push(QUOTE);
            out.push(0x7d);
            out.push(0x7d);
            out.push(0x7d);
            proof {
                assert(out@ =~= env_open() + text_tag() + escape_bytes(content@) + seq![QUOTE]
                    + braces3());
            }
        },
        ChangeNotification::Image { width, height } => {
            let ghost mid0 = out@;
            out.push(0x22);
            out.push(0x49);
            out.push(0x6d);
            out.push(0x61);
            out.push(0x67);
            out.push(0x65);
            out.push(0x22);
            out.push(0x3a);
            out.push(0x7b);
            out.push(0x22);
            out.push(0x77);
            out.push(0x69);
            out.push(0x64);
            out.push(0x74);
            out.push(0x68);
            out.push(0x22);
            out.push(0x3a);
            proof {
                assert(out@ =~= mid0 + image_tag());
            }
            push_digits(&mut out, *width);
            let ghost mid1 = out@;
            out.push(0x2c);
            out.push(0x22);
            out.push(0x68);
            out.push(0x65);
            out.push(0x69);
            out.push(0x67);
            out.push(0x68);
            out.push(0x74);
            out.push(0x22);
            out.push(0x3a);
            proof {
                assert(out@ =~= mid1 + image_mid());
            }
            push_digits(&mut out, *height);
            out.push(0x7d);
            out.push(0x7d);
            out.push(0x7d);
            proof {
                assert(out@ =~= env_open() + image_tag() + digits_of(*width) + image_mid()
                    + digits_of(*height) + braces3());
            }
        },
    }
    out
}

// Parsing, at the specification level. The parser accepts exactly the
// canonical envelopes that `spec_serialize` produces.

/// Parses the inside of a JSON string up to its closing quote. Returns the
/// unescaped content and what follows the closing quote.
pub open spec fn parse_string(s: Seq<u8>) -> Option<(Seq<u8>, Seq<u8>)>
    decreases s.len(),
{
    if s.len() == 0 {
        None
    } else if s[0] == QUOTE {
        Some((Seq::empty(), s.skip(1)))
    } else if s[0] == BACKSLASH {
        if s.len() >= 2 && (s[1] == QUOTE || s[1] == BACKSLASH) {
            match parse_string(s.skip(2)) {
                Some((c, r)) => Some((seq![s[1]] + c, r)),
                None => None,
            }
        } else if s.len() >= 6 && s[1] == LOWER_U && s[2] == DIGIT_0 && s[3] == DIGIT_0
            && is_hex_lower(s[4]) && is_hex_lower(s[5]) && hex_val(s[4]) * 16 + hex_val(s[5])
            < 0x20 {
            match parse_string(s.skip(6)) {
                Some((c, r)) => Some((seq![(hex_val(s[4]) * 16 + hex_val(s[5])) as u8] + c, r)),
                None => None,
            }
        } else {
            None
        }
    } else if s[0] < 0x20 {
        None
    } else {
        match parse_string(s.skip(1)) {
            Some((c, r)) => Some((seq![s[0]] + c, r)),
            None => None,
        }
    }
}

/// Splits off the longest leading run of decimal digits.
pub open spec fn take_digits(s: Seq<u8>) -> (Seq<u8>, Seq<u8>)
    decreases s.len(),
{
    if s.len() == 0 || !is_digit(s[0]) {
        (Seq::empty(), s)
    } else {
        let (d, r) = take_digits(s.skip(1));
        (seq![s[0]] + d, r)
    }
}

/// The number the digit bytes denote.
pub open spec fn digits_val(ds: Seq<u8>) -> int
    decreases ds.len(),
{
    if ds.len() == 0 {
        0
    } else {
        digits_val(ds.take(ds.len() - 1)) * 10 + (ds[ds.len() - 1] - DIGIT_0)
    }
}

/// Parses a canonical decimal number: at least one digit, no leading zero,
/// value within `u64`. Returns the value and what follows the digits.
pub open spec fn parse_number(s: Seq<u8>) -> Option<(u64, Seq<u8>)> {
    let (ds, r) = take_digits(s);
    if ds.len() == 0 {
        None
    } else if ds.len() > 1 && ds[0] == DIGIT_0 {
        None
    } else if digits_val(ds) > u64::MAX {
        None
    } else {
        Some((digits_val(ds) as u64, r))
    }
}

pub open spec fn begins_with(s: Seq<u8>, p: Seq<u8>) -> bool {
    s.len() >= p.len() && s.subrange(0, p.len() as int) == p
}

/// The parse of a whole text frame: the notification it denotes, if the frame
/// is a canonical envelope, and nothing otherwise.
pub open spec fn spec_deserialize(b: Seq<u8>) -> Option<NotificationModel> {
    if begins_with(b, env_open()) {
        let r0 = b.skip(env_open().len() as int);
        if begins_with(r0, text_tag()) {
            match parse_string(r0.skip(text_tag().len() as int)) {
                Some((content, rest)) => if rest == braces3() {
                    Some(NotificationModel::Text { content })
                } else {
                    None
                },
                None => None,
            }
        } else if begins_with(r0, image_tag()) {
            match parse_number(r0.skip(image_tag().len() as int)) {
                Some((w, r1)) => if begins_with(r1, image_mid()) {
                    match parse_number(r1.skip(image_mid().len() as int)) {
                        Some((h, r2)) => if r2 == braces3() {
                            Some(NotificationModel::Image { width: w, height: h })
                        } else {
                            None
                        },
                        None => None,
                    }
                } else {
                    None
                },
                None => None,
            }
        } else {
            None
        }
    } else {
        None
    }
}

// Round-trip lemmas.

/// A sequence beginning with its own prefix `p` continues with the rest.
pub proof fn lemma_begins_with_concat(p: Seq<u8>, t: Seq<u8>)
    ensures
        begins_with(p + t, p),
        (p + t).skip(p.len() as int) == t,
{
    assert((p + t).subrange(0, p.len() as int) =~= p);
    assert((p + t).skip(p.len() as int) =~= t);
}

/// Escaping a value below 16 gives a lowercase hex digit that reads back.
pub proof fn lemma_hex_digit_inverse(v: u8)
    requires
        v < 16,
    ensures
        is_hex_lower(hex_digit(v)),
        hex_val(hex_digit(v)) == v,
{
}

/// Parsing an escaped content followed by a closing quote succeeds and gives
/// the content back, leaving exactly what follows the quote.
pub proof fn lemma_parse_string_round_trip(content: Seq<u8>, rest: Seq<u8>)
    ensures
        parse_string(escape_bytes(content) + seq![QUOTE] + rest) == Some((content, rest)),
    decreases content.len(),
{
    let s = escape_bytes(content) + seq![QUOTE] + rest;
    if content.len() == 0 {
        assert(escape_bytes(content) =~= Seq::<u8>::empty());
        assert(s =~= seq![QUOTE] + rest);
        assert(s[0] == QUOTE);
        assert(s.skip(1) =~= rest);
        assert(content =~= Seq::<u8>::empty());
    } else {
        let b = content[0];
        let tail = escape_bytes(content.skip(1)) + seq![QUOTE] + rest;
        assert(escape_bytes(content) == escape_byte(b) + escape_bytes(content.skip(1)));
        assert(s =~= escape_byte(b) + tail);
        lemma_parse_string_round_trip(content.skip(1), rest);
        if b == QUOTE {
            assert(s[0] == BACKSLASH && s[1] == QUOTE);
            assert(s.skip(2) =~= tail);
            assert(seq![b] + content.skip(1) =~= content);
        } else if b == BACKSLASH {
            assert(s[0] == BACKSLASH && s[1] == BACKSLASH);
            assert(s.skip(2) =~= tail);
            assert(seq![b] + content.skip(1) =~= content);
        } else if b < 0x20 {
            lemma_hex_digit_inverse(b / 16);
            lemma_hex_digit_inverse(b % 16);
            assert(s[0] == BACKSLASH && s[1] == LOWER_U && s[2] == DIGIT_0 && s[3] == DIGIT_0);
            assert(s[4] == hex_digit(b / 16) && s[5] == hex_digit(b % 16));
            assert(hex_val(s[4]) * 16 + hex_val(s[5]) == b);
            assert(s[1] != QUOTE && s[1] != BACKSLASH);
            assert(s.skip(6) =~= tail);
            assert(seq![b] + content.skip(1) =~= content);
        } else {
            assert(s[0] == b && b != QUOTE && b != BACKSLASH);
            assert(s.skip(1) =~= tail);
            assert(seq![b] + content.skip(1) =~= content);
        }
    }
}

/// The digit bytes of `n` are digits, start with a nonzero digit unless `n`
/// is zero, and denote `n`.
pub proof fn lemma_digits_of_canonical(n: u64)
    ensures
        digits_of(n).len() >= 1,
        forall|i: int| 0 <= i < digits_of(n).len() ==> is_digit(#[trigger] digits_of(n)[i]),
        n < 10 <==> digits_of(n).len() == 1,
        digits_of(n).len() > 1 ==> digits_of(n)[0] != DIGIT_0,
        digits_val(digits_of(n)) == n,
    decreases n,
{
    if n < 10 {
        let ds = digits_of(n);
        assert(ds.take(ds.len() - 1) =~= Seq::<u8>::empty());
        assert(digits_val(Seq::<u8>::empty()) == 0);
        assert(digits_val(ds) == 0 * 10 + (ds[0] - DIGIT_0));
    } else {
        lemma_digits_of_canonical(n / 10);
        let front = digits_of(n / 10);
        let ds = digits_of(n);
        assert(ds == front + seq![(DIGIT_0 + (n % 10)) as u8]);
        assert(ds.take(ds.len() - 1) =~= front);
        assert(digits_val(ds) == digits_val(front) * 10 + (n % 10));
        assert(n / 10 >= 1);
        assert(front[0] != DIGIT_0) by {
            if n / 10 < 10 {
                assert(front == seq![(DIGIT_0 + (n / 10)) as u8]);
            }
        }
        assert(ds[0] == front[0]);
    }
}

/// Splitting a digit run from what follows it: `take_digits` stops exactly at
/// the first non-digit.
pub proof fn lemma_take_digits_split(p: Seq<u8>, r: Seq<u8>)
    requires
        forall|i: int| 0 <= i < p.len() ==> is_digit(#[trigger] p[i]),
        r.len() == 0 || !is_digit(r[0]),
    ensures
        take_digits(p + r) == (p, r),
    decreases p.len(),
{
    let s = p + r;
    if p.len() == 0 {
        assert(s =~= r);
        assert(take_digits(s) == (Seq::<u8>::empty(), s));
        assert(Seq::<u8>::empty() =~= p);
    } else {
        assert(is_digit(s[0]));
        assert(s.skip(1) =~= p.skip(1) + r);
        lemma_take_digits_split(p.skip(1), r);
        assert(seq![s[0]] + p.skip(1) =~= p);
    }
}

/// Parsing the canonical digits of `n` followed by a non-digit gives `n` back.
pub proof fn lemma_parse_number_round_trip(n: u64, r: Seq<u8>)
    requires
        r.len() == 0 || !is_digit(r[0]),
    ensures
        parse_number(digits_of(n) + r) == Some((n, r)),
{
    lemma_digits_of_canonical(n);
    lemma_take_digits_split(digits_of(n), r);
}

/// Law: deserializing a serialized notification gives the notification back,
/// for every notification.
pub proof fn lemma_notification_round_trip(m: NotificationModel)
    ensures
        spec_deserialize(spec_serialize(m)) == Some(m),
{
    let b = spec_serialize(m);
    match m {
        NotificationModel::Text { content } => {
            let t1 = text_tag() + (escape_bytes(content) + (seq![QUOTE] + braces3()));
            assert(b =~= env_open() + t1);
            lemma_begins_with_concat(env_open(), t1);
            let r0 = b.skip(env_open().len() as int);
            assert(r0 == t1);
            let t2 = escape_bytes(content) + (seq![QUOTE] + braces3());
            lemma_begins_with_concat(text_tag(), t2);
            assert(!begins_with(r0, image_tag())) by {
                assert(r0[1] == 0x54 && image_tag()[1] == 0x49);
                assert(begins_with(r0, image_tag()) ==> r0.subrange(
                    0,
                    image_tag().len() as int,
                )[1] == 0x49);
            }
            assert(begins_with(r0, text_tag()));
            assert(r0.skip(text_tag().len() as int) == t2);
            assert(t2 =~= escape_bytes(content) + seq![QUOTE] + braces3());
            lemma_parse_string_round_trip(content, braces3());
        },
        NotificationModel::Image { width, height } => {
            let t1 = image_tag() + (digits_of(width) + (image_mid() + (digits_of(height)
                + braces3())));
            assert(b =~= env_open() + t1);
            lemma_begins_with_concat(env_open(), t1);
            let r0 = b.skip(env_open().len() as int);
            assert(r0 == t1);
            lemma_begins_with_concat(image_tag(), digits_of(width) + (image_mid() + (digits_of(
                height,
            ) + braces3())));
            assert(!begins_with(r0, text_tag())) by {
                assert(r0[1] == 0x49 && text_tag()[1] == 0x54);
                assert(begins_with(r0, text_tag()) ==> r0.subrange(0, text_tag().len() as int)[1]
                    == 0x54);
            }
            let s1 = r0.skip(image_tag().len() as int);
            assert(s1 == digits_of(width) + (image_mid() + (digits_of(height) + braces3())));
            let rw = image_mid() + (digits_of(height) + braces3());
            assert(s1 =~= digits_of(width) + rw);
            assert(!is_digit(rw[0]));
            lemma_parse_number_round_trip(width, rw);
            lemma_begins_with_concat(image_mid(), digits_of(height) + braces3());
            let s2 = rw.skip(image_mid().len() as int);
            assert(s2 == digits_of(height) + braces3());
            assert(!is_digit(braces3()[0]));
            lemma_parse_number_round_trip(height, braces3());
        },
    }
}

// Soundness: the parser accepts only canonical envelopes.

/// A lowercase hex digit reads back as the value it denotes.
proof fn lemma_hex_val_inverse(b: u8)
    requires
        is_hex_lower(b),
    ensures
        hex_val(b) < 16,
        hex_digit(hex_val(b)) == b,
{
}

/// A successful string parse means the input was exactly the escaped content,
/// the closing quote, and the rest.
pub proof fn lemma_parse_string_sound(s: Seq<u8>)
    ensures
        parse_string(s) matches Some(p) ==> s == escape_bytes(p.0) + seq![QUOTE] + p.1,
    decreases s.len(),
{
    if s.len() == 0 {
    } else if s[0] == QUOTE {
        assert(escape_bytes(Seq::<u8>::empty()) =~= Seq::<u8>::empty());
        assert(s =~= Seq::<u8>::empty() + seq![QUOTE] + s.skip(1));
    } else if s[0] == BACKSLASH {
        if s.len() >= 2 && (s[1] == QUOTE || s[1] == BACKSLASH) {
            lemma_parse_string_sound(s.skip(2));
            match parse_string(s.skip(2)) {
                Some((c, r)) => {
                    assert(escape_byte(s[1]) =~= seq![BACKSLASH, s[1]]);
                    assert((seq![s[1]] + c).skip(1) =~= c);
                    assert(escape_bytes(seq![s[1]] + c) == escape_byte(s[1]) + escape_bytes(c));
                    assert(s =~= escape_byte(s[1]) + (escape_bytes(c) + seq![QUOTE] + r));
                    assert(s =~= escape_bytes(seq![s[1]] + c) + seq![QUOTE] + r);
                },
                None => {},
            }
        } else if s.len() >= 6 && s[1] == LOWER_U && s[2] == DIGIT_0 && s[3] == DIGIT_0
            && is_hex_lower(s[4]) && is_hex_lower(s[5]) && hex_val(s[4]) * 16 + hex_val(s[5])
            < 0x20 {
            lemma_parse_string_sound(s.skip(6));
            match parse_string(s.skip(6)) {
                Some((c, r)) => {
                    let v = (hex_val(s[4]) * 16 + hex_val(s[5])) as u8;
                    lemma_hex_val_inverse(s[4]);
                    lemma_hex_val_inverse(s[5]);
                    assert(v / 16 == hex_val(s[4]) && v % 16 == hex_val(s[5]));
                    assert(escape_byte(v) =~= seq![
                        BACKSLASH,
                        LOWER_U,
                        DIGIT_0,
                        DIGIT_0,
                        s[4],
                        s[5],
                    ]);
                    assert((seq![v] + c).skip(1) =~= c);
                    assert(escape_bytes(seq![v] + c) == escape_byte(v) + escape_bytes(c));
                    assert(s =~= escape_byte(v) + (escape_bytes(c) + seq![QUOTE] + r));
                    assert(s =~= escape_bytes(seq![v] + c) + seq![QUOTE] + r);
                },
                None => {},
            }
        }
    } else if s[0] < 0x20 {
    } else {
        lemma_parse_string_sound(s.skip(1));
        match parse_string(s.skip(1)) {
            Some((c, r)) => {
                assert(escape_byte(s[0]) =~= seq![s[0]]);
                assert((seq![s[0]] + c).skip(1) =~= c);
                assert(escape_bytes(seq![s[0]] + c) == escape_byte(s[0]) + escape_bytes(c));
                assert(s =~= escape_byte(s[0]) + (escape_bytes(c) + seq![QUOTE] + r));
                assert(s =~= escape_bytes(seq![s[0]] + c) + seq![QUOTE] + r);
            },
            None => {},
        }
    }
}

/// `take_digits` splits the input exactly: digits, then the rest, which does
/// not start with a digit.
proof fn lemma_take_digits_parts(s: Seq<u8>)
    ensures
        ({
            let (ds, r) = take_digits(s);
            &&& s == ds + r
            &&& forall|i: int| 0 <= i < ds.len() ==> is_digit(#[trigger] ds[i])
            &&& (r.len() == 0 || !is_digit(r[0]))
        }),
    decreases s.len(),
{
    if s.len() == 0 || !is_digit(s[0]) {
        assert(s =~= Seq::<u8>::empty() + s);
    } else {
        lemma_take_digits_parts(s.skip(1));
        let (d, r) = take_digits(s.skip(1));
        assert(s.skip(1) == d + r);
        assert(s =~= seq![s[0]] + s.skip(1));
        assert(seq![s[0]] + (d + r) =~= (seq![s[0]] + d) + r);
    }
}

/// Digit bytes that do not start with `0` denote a positive value.
proof fn lemma_digits_val_pos(ds: Seq<u8>)
    requires
        ds.len() >= 1,
        forall|i: int| 0 <= i < ds.len() ==> is_digit(#[trigger] ds[i]),
        ds[0] != DIGIT_0,
    ensures
        digits_val(ds) >= 1,
    decreases ds.len(),
{
    if ds.len() == 1 {
        assert(ds.take(0) =~= Seq::<u8>::empty());
        assert(digits_val(Seq::<u8>::empty()) == 0);
    } else {
        let front = ds.take(ds.len() - 1);
        assert(forall|i: int| 0 <= i < front.len() ==> is_digit(#[trigger] front[i]));
        lemma_digits_val_pos(front);
    }
}

/// Canonical digit bytes are recovered from the value they denote.
proof fn lemma_digits_of_val(ds: Seq<u8>)
    requires
        ds.len() >= 1,
        forall|i: int| 0 <= i < ds.len() ==> is_digit(#[trigger] ds[i]),
        ds.len() > 1 ==> ds[0] != DIGIT_0,
        digits_val(ds) <= u64::MAX,
    ensures
        digits_of(digits_val(ds) as u64) == ds,
    decreases ds.len(),
{
    let n = digits_val(ds);
    if ds.len() == 1 {
        assert(ds.take(0) =~= Seq::<u8>::empty());
        assert(digits_val(Seq::<u8>::empty()) == 0);
        assert(n == ds[0] - DIGIT_0);
        assert(digits_of(n as u64) =~= ds);
    } else {
        let front = ds.take(ds.len() - 1);
        let last = ds[ds.len() - 1];
        assert(n == digits_val(front) * 10 + (last - DIGIT_0));
        assert(forall|i: int| 0 <= i < front.len() ==> is_digit(#[trigger] front[i]));
        assert(front[0] == ds[0]);
        lemma_digits_val_pos(front);
        assert(digits_val(front) <= u64::MAX);
        lemma_digits_of_val(front);
        assert(n >= 10);
        assert(n as u64 / 10 == digits_val(front) && n as u64 % 10 == last - DIGIT_0);
        assert(digits_of(n as u64) == digits_of((n as u64) / 10) + seq![
            (DIGIT_0 + ((n as u64) % 10)) as u8,
        ]);
        assert(digits_of(n as u64) =~= ds);
    }
}

/// A successful number parse means the input was exactly the canonical digits
/// of the value, followed by a rest that starts with no digit.
pub proof fn lemma_parse_number_sound(s: Seq<u8>)
    ensures
        parse_number(s) matches Some(p) ==> s == digits_of(p.0) + p.1 && (p.1.len() == 0
            || !is_digit(p.1[0])),
{
    lemma_take_digits_parts(s);
    let (ds, r) = take_digits(s);
    if parse_number(s) is Some {
        assert(forall|i: int| 0 <= i < ds.len() ==> is_digit(#[trigger] ds[i]));
        lemma_digits_val_nonneg(ds);
        lemma_digits_of_val(ds);
    }
}

/// Law: the parser accepts only canonical envelopes — a successful parse
/// means the input is exactly the serialization of its result. Together with
/// the round trip, this pins the wire format completely: `spec_deserialize`
/// succeeds exactly on the serializations, and on nothing else.
pub proof fn lemma_deserialize_sound(b: Seq<u8>)
    ensures
        spec_deserialize(b) matches Some(m) ==> b == spec_serialize(m),
{
    if spec_deserialize(b) is Some {
        assert(b =~= env_open() + b.skip(12));
        let r0 = b.skip(12);
        if begins_with(r0, text_tag()) {
            assert(r0 =~= text_tag() + r0.skip(19));
            lemma_parse_string_sound(r0.skip(19));
            match parse_string(r0.skip(19)) {
                Some((content, rest)) => {
                    assert(b =~= env_open() + text_tag() + escape_bytes(content) + seq![QUOTE]
                        + braces3());
                },
                None => {},
            }
        } else if begins_with(r0, image_tag()) {
            let s1 = r0.skip(17);
            assert(r0 =~= image_tag() + s1);
            lemma_parse_number_sound(s1);
            match parse_number(s1) {
                Some((w, r1)) => {
                    assert(r1 =~= image_mid() + r1.skip(10));
                    let s2 = r1.skip(10);
                    lemma_parse_number_sound(s2);
                    match parse_number(s2) {
                        Some((h, r2)) => {
                            assert(b =~= env_open() + image_tag() + digits_of(w) + image_mid()
                                + digits_of(h) + braces3());
                        },
                        None => {},
                    }
                },
                None => {},
            }
        }
    }
}

// Executable parsing.

fn is_digit_exec(b: u8) -> (r: bool)
    ensures
        r == is_digit(b),
{
    DIGIT_0 <= b && b <= DIGIT_9
}

fn is_hex_lower_exec(b: u8) -> (r: bool)
    ensures
        r == is_hex_lower(b),
{
    (DIGIT_0 <= b && b <= DIGIT_9) || (HEX_A <= b && b <= HEX_F)
}

fn hex_val_exec(b: u8) -> (r: u8)
    requires
        is_hex_lower(b),
    ensures
        r == hex_val(b),
{
    if b <= DIGIT_9 {
        b - DIGIT_0
    } else {
        b - HEX_A + 10
    }
}

/// True when the bytes of `b` from position `i` on begin with the pattern.
fn begins_with_at(b: &Vec<u8>, i: usize, p: &Vec<u8>) -> (r: bool)
    requires
        i <= b@.len(),
    ensures
        r == begins_with(b@.skip(i as int), p@),
{
    let blen = b.len();
    if blen - i < p.len() {
        return false;
    }
    let mut k: usize = 0;
    while k < p.len()
        invariant
            i + p@.len() <= b@.len(),
            b@.len() <= usize::MAX,
            k <= p@.len(),
            forall|j: int| 0 <= j < k ==> b@[i + j] == p@[j],
        decreases p.len() - k,
    {
        if b[i + k] != p[k] {
            proof {
                let s = b@.skip(i as int);
                assert(s.subrange(0, p@.len() as int)[k as int] == b@[i + k]);
            }
            return false;
        }
        k += 1;
    }
    proof {
        let s = b@.skip(i as int);
        assert(s.subrange(0, p@.len() as int) =~= p@);
    }
    true
}

/// Parses the inside of a JSON string from position `i`, returning the
/// unescaped content and the position after the closing quote.
fn parse_string_exec(b: &Vec<u8>, i: usize) -> (r: Option<(Vec<u8>, usize)>)
    requires
        i <= b@.len(),
    ensures
        match r {
            Some(p) => p.1 <= b@.len() && parse_string(b@.skip(i as int)) == Some(
                (p.0@, b@.skip(p.1 as int)),
            ),
            None => parse_string(b@.skip(i as int)) is None,
        },
    decreases b@.len() - i,
{
    let ghost s = b@.skip(i as int);
    if i == b.len() {
        return None;
    }
    let c = b[i];
    proof {
        assert(s[0] == c);
    }
    if c == QUOTE {
        proof {
            assert(s.skip(1) =~= b@.skip(i + 1));
        }
        return Some((Vec::new(), i + 1));
    }
    if c == BACKSLASH {
        if i + 1 < b.len() && (b[i + 1] == QUOTE || b[i + 1] == BACKSLASH) {
            proof {
                assert(s.len() >= 2 && s[1] == b@[i + 1]);
                assert(s.skip(2) =~= b@.skip(i + 2));
            }
            match parse_string_exec(b, i + 2) {
                Some((tail, j)) => {
                    let ghost tv = tail@;
                    let mut v: Vec<u8> = Vec::new();
                    v.push(b[i + 1]);
                    let mut t = tail;
                    v.append(&mut t);
                    proof {
                        assert(v@ =~= seq![s[1]] + tv);
                    }
                    Some((v, j))
                },
                None => None,
            }
        } else if b.len() - i >= 6 && b[i + 1] == LOWER_U && b[i + 2] == DIGIT_0 && b[i + 3]
            == DIGIT_0 && is_hex_lower_exec(b[i + 4]) && is_hex_lower_exec(b[i + 5]) && {
            let hv = hex_val_exec(b[i + 4]) * 16 + hex_val_exec(b[i + 5]);
            hv < 0x20
        } {
            let d = hex_val_exec(b[i + 4]) * 16 + hex_val_exec(b[i + 5]);
            proof {
                assert(s.len() >= 6);
                assert(s[1] == b@[i + 1] && s[2] == b@[i + 2] && s[3] == b@[i + 3] && s[4] == b@[i
                    + 4] && s[5] == b@[i + 5]);
                assert(s.skip(6) =~= b@.skip(i + 6));
            }
            match parse_string_exec(b, i + 6) {
                Some((tail, j)) => {
                    let ghost tv = tail@;
                    let mut v: Vec<u8> = Vec::new();
                    v.push(d);
                    let mut t = tail;
                    v.append(&mut t);
                    proof {
                        assert(v@ =~= seq![d] + tv);
                    }
                    Some((v, j))
                },
                None => None,
            }
        } else {
            proof {
                assert(s.len() >= 2 ==> s[1] == b@[i + 1]);
                assert(s.len() >= 6 ==> s[4] == b@[i + 4] && s[5] == b@[i + 5]);
            }
            None
        }
    } else if c < 0x20 {
        None
    } else {
        proof {
            assert(s.skip(1) =~= b@.skip(i + 1));
        }
        match parse_string_exec(b, i + 1) {
            Some((tail, j)) => {
                let ghost tv = tail@;
                let mut v: Vec<u8> = Vec::new();
                v.push(c);
                let mut t = tail;
                v.append(&mut t);
                proof {
                    assert(v@ =~= seq![s[0]] + tv);
                }
                Some((v, j))
            },
            None => None,
        }
    }
}

/// Digit bytes denote a value that is not negative.
proof fn lemma_digits_val_nonneg(ds: Seq<u8>)
    requires
        forall|i: int| 0 <= i < ds.len() ==> is_digit(#[trigger] ds[i]),
    ensures
        digits_val(ds) >= 0,
    decreases ds.len(),
{
    if ds.len() > 0 {
        let front = ds.take(ds.len() - 1);
        assert(forall|i: int| 0 <= i < front.len() ==> is_digit(#[trigger] front[i]));
        lemma_digits_val_nonneg(front);
    }
}

/// The value of a digit prefix never shrinks as more digits follow.
proof fn lemma_digits_val_mono(ds: Seq<u8>, k: int)
    requires
        0 <= k <= ds.len(),
        forall|i: int| 0 <= i < ds.len() ==> is_digit(#[trigger] ds[i]),
    ensures
        digits_val(ds) >= digits_val(ds.take(k)),
    decreases ds.len() - k,
{
    if k == ds.len() {
        assert(ds.take(k) =~= ds);
    } else {
        let p = ds.take(k + 1);
        assert(p.take(p.len() - 1) =~= ds.take(k));
        assert(p[p.len() - 1] == ds[k]);
        assert(digits_val(p) == digits_val(ds.take(k)) * 10 + (ds[k] - DIGIT_0));
        let front = ds.take(k);
        assert(forall|i: int| 0 <= i < front.len() ==> is_digit(#[trigger] front[i]));
        lemma_digits_val_nonneg(front);
        lemma_digits_val_mono(ds, k + 1);
    }
}

/// Parses a canonical decimal number from position `i`, returning the value
/// and the position after the digits.
fn parse_number_exec(b: &Vec<u8>, i: usize) -> (r: Option<(u64, usize)>)
    requires
        i <= b@.len(),
    ensures
        match r {
            Some(p) => p.1 <= b@.len() && parse_number(b@.skip(i as int)) == Some(
                (p.0, b@.skip(p.1 as int)),
            ),
            None => parse_number(b@.skip(i as int)) is None,
        },
{
    let ghost s = b@.skip(i as int);
    let mut j: usize = i;
    while j < b.len() && is_digit_exec(b[j])
        invariant
            i <= j <= b@.len(),
            forall|k: int| i <= k < j ==> is_digit(#[trigger] b@[k]),
        decreases b@.len() - j,
    {
        j += 1;
    }
    let ghost ds = b@.subrange(i as int, j as int);
    proof {
        assert(forall|k: int| 0 <= k < ds.len() ==> is_digit(#[trigger] ds[k]));
        assert(s =~= ds + b@.skip(j as int));
        assert(b@.skip(j as int).len() == 0 || !is_digit(b@.skip(j as int)[0]));
        lemma_take_digits_split(ds, b@.skip(j as int));
    }
    if j == i {
        return None;
    }
    if b[i] == DIGIT_0 && j - i > 1 {
        proof {
            assert(ds[0] == DIGIT_0 && ds.len() > 1);
        }
        return None;
    }
    let mut val: u64 = 0;
    let mut k: usize = i;
    while k < j
        invariant
            i < j,
            i <= k <= j <= b@.len(),
            ds == b@.subrange(i as int, j as int),
            take_digits(b@.skip(i as int)) == (ds, b@.skip(j as int)),
            !(ds.len() > 1 && ds[0] == DIGIT_0),
            forall|m: int| 0 <= m < ds.len() ==> is_digit(#[trigger] ds[m]),
            val == digits_val(ds.take(k - i)),
        decreases j - k,
    {
        proof {
            assert(is_digit(ds[k - i]) && ds[k - i] == b@[k as int]);
        }
        let d = b[k] - DIGIT_0;
        proof {
            let p = ds.take(k - i + 1);
            assert(p.take(p.len() - 1) =~= ds.take(k - i));
            assert(p[p.len() - 1] == ds[k - i] && ds[k - i] == b@[k as int]);
            assert(digits_val(p) == digits_val(ds.take(k - i)) * 10 + (b@[k as int] - DIGIT_0));
        }
        let limit = u64::MAX / 10;
        if val > limit || (val == limit && d > 5) {
            proof {
                assert(val * 10 + d > u64::MAX);
                assert(digits_val(ds.take(k - i + 1)) > u64::MAX);
                lemma_digits_val_mono(ds, k - i + 1);
            }
            return None;
        }
        val = val * 10 + (d as u64);
        k += 1;
    }
    proof {
        assert(ds.take(j - i) =~= ds);
        assert(digits_val(ds) == val);
        assert(!(ds.len() > 1 && ds[0] == DIGIT_0));
    }
    Some((val, j))
}

/// Parses a received text frame. Returns the notification exactly when the
/// frame is a canonical envelope, and `CodecError::MalformedEnvelope`
/// otherwise.
#[verifier::rlimit(100)]
pub fn deserialize_notification(b: &Vec<u8>) -> (r: Result<ChangeNotification, CodecError>)
    ensures
        match r {
            Ok(n) => spec_deserialize(b@) == Some(n@),
            Err(e) => spec_deserialize(b@) is None && e == CodecError::MalformedEnvelope,
        },
{
    let mut env: Vec<u8> = Vec::new();
    env.push(0x7b);
    env.push(0x22);
    env.push(0x70);
    env.push(0x61);
    env.push(0x79);
    env.push(0x6c);
    env.push(0x6f);
    env.push(0x61);
    env.push(0x64);
    env.push(0x22);
    env.push(0x3a);
    env.push(0x7b);
    proof {
        assert(env@ =~= env_open());
        assert(b@.skip(0) =~= b@);
    }
    if !begins_with_at(b, 0, &env) {
        return Err(CodecError::MalformedEnvelope);
    }
    let ghost r0 = b@.skip(env_open().len() as int);
    let mut ttag: Vec<u8> = Vec::new();
    ttag.push(0x22);
    ttag.push(0x54);
    ttag.push(0x65);
    ttag.push(0x78);
    ttag.push(0x74);
    ttag.push(0x22);
    ttag.push(0x3a);
    ttag.push(0x7b);
    ttag.push(0x22);
    ttag.push(0x63);
    ttag.push(0x6f);
    ttag.push(0x6e);
    ttag.push(0x74);
    ttag.push(0x65);
    ttag.push(0x6e);
    ttag.push(0x74);
    ttag.push(0x22);
    ttag.push(0x3a);
    ttag.push(0x22);
    proof {
        assert(ttag@ =~= text_tag());
    }
    let mut br3: Vec<u8> = Vec::new();
    br3.push(0x7d);
    br3.push(0x7d);
    br3.push(0x7d);
    proof {
        assert(br3@ =~= braces3());
    }
    if begins_with_at(b, 12, &ttag) {
        proof {
            assert(r0 == b@.skip(12));
            assert(r0.skip(text_tag().len() as int) =~= b@.skip(31));
        }
        match parse_string_exec(b, 31) {
            Some((content, j)) => {
                let ghost rest = b@.skip(j as int);
                if b.len() - j == 3 && begins_with_at(b, j, &br3) {
                    proof {
                        assert(rest =~= rest.subrange(0, braces3().len() as int));
                        assert(rest == braces3());
                    }
                    Ok(ChangeNotification::Text { content })
                } else {
                    proof {
                        if rest == braces3() {
                            assert(rest.len() == 3);
                            assert(rest.subrange(0, 3) =~= rest);
                        }
                    }
                    Err(CodecError::MalformedEnvelope)
                }
            },
            None => Err(CodecError::MalformedEnvelope),
        }
    } else {
        let mut itag: Vec<u8> = Vec::new();
        itag.push(0x22);
        itag.push(0x49);
        itag.push(0x6d);
        itag.push(0x61);
        itag.push(0x67);
        itag.push(0x65);
        itag.push(0x22);
        itag.push(0x3a);
        itag.push(0x7b);
        itag.push(0x22);
        itag.push(0x77);
        itag.push(0x69);
        itag.push(0x64);
        itag.push(0x74);
        itag.push(0x68);
        itag.push(0x22);
        itag.push(0x3a);
        proof {
            assert(itag@ =~= image_tag());
        }
        if !begins_with_at(b, 12, &itag) {
            return Err(CodecError::MalformedEnvelope);
        }
        proof {
            assert(r0 == b@.skip(12));
            assert(r0.skip(image_tag().len() as int) =~= b@.skip(29));
        }
        match parse_number_exec(b, 29) {
            Some((w, j1)) => {
                let ghost r1 = b@.skip(j1 as int);
                let mut imid: Vec<u8> = Vec::new();
                imid.push(0x2c);
                imid.push(0x22);
                imid.push(0x68);
                imid.push(0x65);
                imid.push(0x69);
                imid.push(0x67);
                imid.push(0x68);
                imid.push(0x74);
                imid.push(0x22);
                imid.push(0x3a);
                proof {
                    assert(imid@ =~= image_mid());
                }
                if !begins_with_at(b, j1, &imid) {
                    return Err(CodecError::MalformedEnvelope);
                }
                proof {
                    assert(r1.skip(image_mid().len() as int) =~= b@.skip(j1 + 10));
                }
                let blen = b.len();
                match parse_number_exec(b, j1 + 10) {
                    Some((h, j2)) => {
                        let ghost r2 = b@.skip(j2 as int);
                        if blen - j2 == 3 && begins_with_at(b, j2, &br3) {
                            proof {
                                assert(r2 =~= r2.subrange(0, braces3().len() as int));
                                assert(r2 == braces3());
                            }
                            Ok(ChangeNotification::Image { width: w, height: h })
                        } else {
                            proof {
                                if r2 == braces3() {
                                    assert(r2.len() == 3);
                                    assert(r2.subrange(0, 3) =~= r2);
                                }
                            }
                            Err(CodecError::MalformedEnvelope)
                        }
                    },
                    None => Err(CodecError::MalformedEnvelope),
                }
            },
            None => Err(CodecError::MalformedEnvelope),
        }
    }
}

} // verus!

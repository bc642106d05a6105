//! AWS Signature Version 4: signed requests and presigned URLs.

use hmac::Mac;
use subtle::ConstantTimeEq;
use vstd::prelude::*;
use vstd::string::*;
use vstd::utf8::*;

use super::dates;
use crate::digest;
use crate::order;
use crate::query;
use crate::split;
use crate::storage;
use crate::strmap::StringMap;
use crate::text;
use crate::time;

verus! {

/// The keys of the server, and whether requests are checked at all.
#[derive(Clone, Debug)]
pub struct AuthConfig {
    pub access_key: String,
    pub secret_key: String,
    pub no_auth: bool,
}

// ------------------------------------------------------------ outside calls

/// The HMAC-SHA256 code of a message under a key.
pub uninterp spec fn hmac_code(key: Seq<u8>, message: Seq<u8>) -> Seq<u8>;

/// HMAC-SHA256 by `hmac::Hmac<sha2::Sha256>`, which takes keys of every length. Claimed
/// are its 32 bytes, and that they depend on key and message alone.
#[verifier::external_body]
fn hmac_sha256(key: &[u8], data: &[u8]) -> (r: Vec<u8>)
    ensures
        r@ == hmac_code(key@, data@),
        r@.len() == 32,
{
    let mut mac = hmac::Hmac::<sha2::Sha256>::new_from_slice(key).expect("HMAC key length");
    mac.update(data);
    mac.finalize().into_bytes().to_vec()
}

/// `subtle::ConstantTimeEq::ct_eq` on byte slices: whether they are equal.
#[verifier::external_body]
fn constant_time_eq(a: &[u8], b: &[u8]) -> (r: bool)
    ensures
        r == (a@ == b@),
{
    a.ct_eq(b).into()
}

/// `String::from_utf8`: the text with these UTF-8 bytes, if they are valid.
#[verifier::external_body]
fn from_utf8(bytes: Vec<u8>) -> (r: Option<String>)
    ensures
        (r is Some) == valid_utf8(bytes@),
        r matches Some(s) ==> s@ == decode_utf8(bytes@),
{
    String::from_utf8(bytes).ok()
}

// ------------------------------------------------------------------- headers

/// The value of the first header with a name, whatever its case.
pub open spec fn header(headers: Seq<(Seq<char>, Seq<char>)>, name: Seq<char>) -> Option<Seq<char>>
    decreases headers.len(),
{
    if headers.len() == 0 {
        None
    } else if text::lower_case(headers[0].0) == name {
        Some(headers[0].1)
    } else {
        header(headers.drop_first(), name)
    }
}

/// Finds the first header with a lower-case name.
pub fn find_header<'a>(headers: &'a [(String, String)], name: &str) -> (r: Option<&'a str>)
    ensures
        match r {
            Some(v) => header(storage::pair_views(headers@), name@) == Some(v@),
            None => header(storage::pair_views(headers@), name@) is None,
        },
{
    let ghost all = storage::pair_views(headers@);
    let mut i: usize = 0;
    assert(all.skip(0) =~= all);
    while i < headers.len()
        invariant
            i <= headers@.len(),
            all == storage::pair_views(headers@),
            header(all, name@) == header(all.skip(i as int), name@),
        decreases headers@.len() - i,
    {
        let low = text::to_lowercase(headers[i].0.as_str());
        if text::str_eq(low.as_str(), name) {
            return Some(headers[i].1.as_str());
        }
        assert(all.skip(i as int).drop_first() =~= all.skip(i + 1));
        i = i + 1;
    }
    None
}

/// The signed headers as they are signed: name, value without outer white space, one to a
/// line. A header that the request lacks is passed over.
pub open spec fn canonical_headers(
    headers: Seq<(Seq<char>, Seq<char>)>,
    signed: Seq<Seq<char>>,
) -> Seq<char>
    decreases signed.len(),
{
    if signed.len() == 0 {
        Seq::empty()
    } else {
        let before = canonical_headers(headers, signed.drop_last());
        match header(headers, signed.last()) {
            Some(v) => before + signed.last() + ":"@ + text::trimmed(v) + "\n"@,
            None => before,
        }
    }
}

/// Writes down the signed headers.
pub fn build_canonical_headers(headers: &[(String, String)], signed: &[String]) -> (r: String)
    ensures
        r@ == canonical_headers(storage::pair_views(headers@), order::views(signed@)),
{
    let ghost hv = storage::pair_views(headers@);
    let ghost sv = order::views(signed@);
    let mut out = String::new();
    let mut i: usize = 0;
    assert(sv.take(0) =~= Seq::empty());
    while i < signed.len()
        invariant
            i <= signed@.len(),
            hv == storage::pair_views(headers@),
            sv == order::views(signed@),
            out@ == canonical_headers(hv, sv.take(i as int)),
        decreases signed@.len() - i,
    {
        proof {
            assert(sv.take(i + 1).drop_last() =~= sv.take(i as int));
            assert(sv.take(i + 1).last() == sv[i as int]);
        }
        if let Some(v) = find_header(headers, signed[i].as_str()) {
            out.append(signed[i].as_str());
            out.append(":");
            out.append(text::trim(v));
            out.append("\n");
        }
        i = i + 1;
    }
    assert(sv.take(i as int) =~= sv);
    out
}

// --------------------------------------------------------------------- query

/// A parameter: name and value, the value empty where no equals sign stands.
pub open spec fn parameter(piece: Seq<char>) -> (Seq<char>, Seq<char>) {
    match split::split_pair(piece, '=') {
        Some(p) => p,
        None => (piece, Seq::empty()),
    }
}

/// The parameters of a query, as they stand.
pub open spec fn parameters(query: Seq<char>) -> Seq<(Seq<char>, Seq<char>)> {
    split::pieces(query, '&').map_values(|p: Seq<char>| parameter(p))
}

/// The parameters but for those of the given name.
pub open spec fn without(pairs: Seq<(Seq<char>, Seq<char>)>, name: Seq<char>) -> Seq<
    (Seq<char>, Seq<char>),
>
    decreases pairs.len(),
{
    if pairs.len() == 0 {
        Seq::empty()
    } else if pairs.last().0 != name {
        without(pairs.drop_last(), name).push(pairs.last())
    } else {
        without(pairs.drop_last(), name)
    }
}

/// Parameters written down again, with `&` between them.
pub open spec fn written(pairs: Seq<(Seq<char>, Seq<char>)>) -> Seq<char>
    decreases pairs.len(),
{
    if pairs.len() == 0 {
        Seq::empty()
    } else {
        (if pairs.len() == 1 {
            Seq::empty()
        } else {
            written(pairs.drop_last()) + "&"@
        }) + pairs.last().0 + "="@ + pairs.last().1
    }
}

/// The query as it is signed: its parameters in order.
pub open spec fn canonical_query_text(query: Seq<char>) -> Seq<char> {
    if query.len() == 0 {
        Seq::empty()
    } else {
        written(split::in_order(parameters(query)))
    }
}

/// The query of a presigned URL as it is signed: without the signature.
pub open spec fn presigned_query_text(query: Seq<char>) -> Seq<char> {
    if query.len() == 0 {
        Seq::empty()
    } else {
        written(split::in_order(without(parameters(query), "X-Amz-Signature"@)))
    }
}

fn list_parameters(query: &str) -> (r: Vec<(String, String)>)
    ensures
        storage::pair_views(r@) == parameters(query@),
{
    let parts = split::split(query, '&');
    let ghost pv = order::views(parts@);
    let mut out: Vec<(String, String)> = Vec::new();
    while out.len() < parts.len()
        invariant
            out@.len() <= parts@.len(),
            pv == order::views(parts@),
            forall|k: int|
                0 <= k < out@.len() ==> ((#[trigger] out@[k]).0@, out@[k].1@) == parameter(pv[k]),
        decreases parts@.len() - out@.len(),
    {
        let piece = &parts[out.len()];
        match split::split_once(piece.as_str(), '=') {
            Some(p) => out.push(p),
            None => {
                let none = String::new();
                assert(none@ =~= Seq::<char>::empty());
                out.push((piece.clone(), none));
            },
        }
    }
    assert(storage::pair_views(out@) =~= parameters(query@));
    out
}

fn write_pairs(pairs: &Vec<(String, String)>) -> (r: String)
    ensures
        r@ == written(storage::pair_views(pairs@)),
{
    let ghost all = storage::pair_views(pairs@);
    let mut out = String::new();
    let mut i: usize = 0;
    assert(all.take(0) =~= Seq::empty());
    while i < pairs.len()
        invariant
            i <= pairs@.len(),
            all == storage::pair_views(pairs@),
            out@ == written(all.take(i as int)),
        decreases pairs@.len() - i,
    {
        proof {
            assert(all.take(i + 1).drop_last() =~= all.take(i as int));
            assert(all.take(i + 1).last() == all[i as int]);
            assert(out@ + "&"@ == written(all.take(i as int)) + "&"@);
            assert(i == 0 ==> out@ =~= Seq::<char>::empty());
        }
        if i > 0 {
            out.append("&");
        }
        out.append(pairs[i].0.as_str());
        out.append("=");
        out.append(pairs[i].1.as_str());
        i = i + 1;
    }
    assert(all.take(i as int) =~= all);
    out
}

/// The query as it is signed.
pub fn canonical_query(query: &str) -> (r: String)
    ensures
        r@ == canonical_query_text(query@),
{
    if query.is_empty() {
        assert(query@.len() == 0);
        return String::new();
    }
    let pairs = list_parameters(query);
    write_pairs(&split::sort_pairs(&pairs))
}

/// The query of a presigned URL as it is signed.
pub fn canonical_query_presigned(query: &str) -> (r: String)
    ensures
        r@ == presigned_query_text(query@),
{
    if query.is_empty() {
        assert(query@.len() == 0);
        return String::new();
    }
    let all = list_parameters(query);
    let ghost av = storage::pair_views(all@);
    let mut kept: Vec<(String, String)> = Vec::new();
    let mut i: usize = 0;
    assert(av.take(0) =~= Seq::empty());
    assert(storage::pair_views(kept@) =~= Seq::empty());
    while i < all.len()
        invariant
            i <= all@.len(),
            av == storage::pair_views(all@),
            storage::pair_views(kept@) == without(av.take(i as int), "X-Amz-Signature"@),
        decreases all@.len() - i,
    {
        let ghost before = storage::pair_views(kept@);
        proof {
            assert(av.take(i + 1).drop_last() =~= av.take(i as int));
            assert(av.take(i + 1).last() == av[i as int]);
        }
        if !text::str_eq(all[i].0.as_str(), "X-Amz-Signature") {
            kept.push((all[i].0.clone(), all[i].1.clone()));
            assert(storage::pair_views(kept@) =~= before.push(av[i as int]));
        }
        i = i + 1;
    }
    assert(av.take(i as int) =~= av);
    write_pairs(&split::sort_pairs(&kept))
}

// ---------------------------------------------------------- percent decoding

/// The value of a hexadecimal digit.
pub open spec fn hex_value(b: u8) -> Option<u8> {
    if 48 <= b <= 57 {
        Some((b - 48) as u8)
    } else if 65 <= b <= 70 {
        Some((b - 55) as u8)
    } else if 97 <= b <= 102 {
        Some((b - 87) as u8)
    } else {
        None
    }
}

/// The byte that two characters denote in base sixteen. A plus sign may stand in place of
/// the first.
pub open spec fn escaped_byte(a: u8, b: u8) -> Option<u8> {
    match (hex_value(a), hex_value(b)) {
        (Some(x), Some(y)) => Some((x * 16 + y) as u8),
        (None, Some(y)) => if a == 43 {
            Some(y)
        } else {
            None
        },
        _ => None,
    }
}

/// Bytes with every percent escape replaced by its byte. What is no escape stays.
pub open spec fn unescaped(bytes: Seq<u8>) -> Seq<u8>
    decreases bytes.len(),
{
    if bytes.len() == 0 {
        Seq::empty()
    } else if bytes[0] == 37 && bytes.len() > 2 && escaped_byte(bytes[1], bytes[2]) is Some {
        seq![escaped_byte(bytes[1], bytes[2])->0] + unescaped(bytes.skip(3))
    } else {
        seq![bytes[0]] + unescaped(bytes.skip(1))
    }
}

/// The text that a percent-encoded one stands for, empty where its bytes are no UTF-8.
pub open spec fn percent_decoded(s: Seq<char>) -> Seq<char> {
    let bytes = unescaped(encode_utf8(s));
    if valid_utf8(bytes) {
        decode_utf8(bytes)
    } else {
        Seq::empty()
    }
}

fn hex_digit_value(b: u8) -> (r: Option<u8>)
    ensures
        r == hex_value(b),
        r matches Some(v) ==> v < 16,
{
    if 48 <= b && b <= 57 {
        Some(b - 48)
    } else if 65 <= b && b <= 70 {
        Some(b - 55)
    } else if 97 <= b && b <= 102 {
        Some(b - 87)
    } else {
        None
    }
}

fn read_escape(a: u8, b: u8) -> (r: Option<u8>)
    ensures
        r == escaped_byte(a, b),
{
    match (hex_digit_value(a), hex_digit_value(b)) {
        (Some(x), Some(y)) => Some(x * 16 + y),
        (None, Some(y)) => if a == 43 {
            Some(y)
        } else {
            None
        },
        _ => None,
    }
}

/// Undoes percent encoding.
pub fn percent_decode(s: &str) -> (r: String)
    ensures
        r@ == percent_decoded(s@),
{
    let bytes = s.as_bytes();
    let mut out: Vec<u8> = Vec::new();
    let mut i: usize = 0;
    let ghost goal = unescaped(bytes@);
    assert(bytes@.skip(0) =~= bytes@);
    assert(out@ + unescaped(bytes@.skip(0)) =~= goal);
    while i < bytes.len()
        invariant
            i <= bytes@.len(),
            out@ + unescaped(bytes@.skip(i as int)) == goal,
        decreases bytes@.len() - i,
    {
        let ghost rest = bytes@.skip(i as int);
        let ghost before = out@;
        assert(bytes.len() == bytes@.len());
        let escape: Option<u8> = if bytes[i] == 37 && bytes.len() - i > 2 {
            read_escape(bytes[i + 1], bytes[i + 2])
        } else {
            None
        };
        match escape {
            Some(b) => {
                out.push(b);
                assert(rest.skip(3) =~= bytes@.skip(i + 3));
                assert(before + (seq![b] + unescaped(bytes@.skip(i + 3))) =~= out@ + unescaped(
                    bytes@.skip(i + 3),
                ));
                i = i + 3;
            },
            None => {
                out.push(bytes[i]);
                assert(rest.skip(1) =~= bytes@.skip(i + 1));
                assert(before + (seq![rest[0]] + unescaped(bytes@.skip(i + 1))) =~= out@
                    + unescaped(bytes@.skip(i + 1)));
                i = i + 1;
            },
        }
    }
    assert(unescaped(bytes@.skip(i as int)) =~= Seq::<u8>::empty());
    assert(out@ =~= goal);
    match from_utf8(out) {
        Some(t) => t,
        None => {
            let none = String::new();
            assert(none@ =~= Seq::<char>::empty());
            none
        },
    }
}

/// The parameters with an equals sign, decoded.
pub open spec fn decoded_parameters(query: Seq<char>) -> Seq<(Seq<char>, Seq<char>)> {
    decoded_pieces(split::pieces(query, '&'))
}

/// The pieces with an equals sign, decoded.
pub open spec fn decoded_pieces(parts: Seq<Seq<char>>) -> Seq<(Seq<char>, Seq<char>)>
    decreases parts.len(),
{
    if parts.len() == 0 {
        Seq::empty()
    } else {
        match split::split_pair(parts.last(), '=') {
            Some((k, v)) => decoded_pieces(parts.drop_last()).push(
                (percent_decoded(k), percent_decoded(v)),
            ),
            None => decoded_pieces(parts.drop_last()),
        }
    }
}

/// The parameters of a query, percent-decoded, by name.
pub fn parse_query_params(query: &str) -> (r: StringMap<String>)
    ensures
        query::texts(r@) == query::by_name(decoded_parameters(query@)),
{
    let parts = split::split(query, '&');
    let ghost pv = order::views(parts@);
    let mut out: Vec<(String, String)> = Vec::new();
    let mut i: usize = 0;
    assert(pv.take(0) =~= Seq::empty());
    assert(storage::pair_views(out@) =~= Seq::empty());
    while i < parts.len()
        invariant
            i <= parts@.len(),
            pv == order::views(parts@),
            storage::pair_views(out@) == decoded_pieces(pv.take(i as int)),
        decreases parts@.len() - i,
    {
        let ghost before = storage::pair_views(out@);
        proof {
            assert(pv.take(i + 1).drop_last() =~= pv.take(i as int));
            assert(pv.take(i + 1).last() == pv[i as int]);
        }
        if let Some((k, v)) = split::split_once(parts[i].as_str(), '=') {
            let dk = percent_decode(k.as_str());
            let dv = percent_decode(v.as_str());
            out.push((dk, dv));
            assert(storage::pair_views(out@) =~= before.push((dk@, dv@)));
        }
        i = i + 1;
    }
    assert(pv.take(i as int) =~= pv);
    query::collect_pairs(out)
}

// --------------------------------------------------------------------- dates

/// The days of the year before a month begins, in a common year.
pub open spec fn month_start(month: int) -> int {
    if month == 2 {
        31
    } else if month == 3 {
        59
    } else if month == 4 {
        90
    } else if month == 5 {
        120
    } else if month == 6 {
        151
    } else if month == 7 {
        181
    } else if month == 8 {
        212
    } else if month == 9 {
        243
    } else if month == 10 {
        273
    } else if month == 11 {
        304
    } else if month == 12 {
        334
    } else {
        0
    }
}

/// How many of the years from the first on are leap years, up to and without a year.
pub open spec fn leap_years_before(year: int) -> int {
    (year - 1) / 4 - (year - 1) / 100 + (year - 1) / 400
}

/// Days from the epoch to a date.
pub open spec fn epoch_days(year: int, month: int, day: int) -> int {
    (year - 1970) * 365 + (leap_years_before(year) - leap_years_before(1970)) + month_start(month)
        + (if 3 <= month <= 12 && dates::leap(year) {
        1int
    } else {
        0
    }) + day - 1
}

/// The number in a stretch of a text.
pub open spec fn field(s: Seq<char>, from: int, to: int) -> Option<u64> {
    text::u64_value(s.subrange(from, to))
}

/// The moment of a date such as `20240101T000000Z`, in seconds since the epoch.
pub open spec fn amz_seconds(s: Seq<char>) -> Option<int> {
    if s.len() != 16 || !is_ascii_chars(s) {
        None
    } else {
        match (
            field(s, 0, 4),
            field(s, 4, 6),
            field(s, 6, 8),
            field(s, 9, 11),
            field(s, 11, 13),
            field(s, 13, 15),
        ) {
            (Some(y), Some(mo), Some(d), Some(h), Some(mi), Some(se)) => Some(
                epoch_days(y as int, mo as int, d as int) * 86400 + h * 3600 + mi * 60 + se,
            ),
            _ => None,
        }
    }
}

fn month_days(month: u64) -> (r: i64)
    ensures
        r == month_start(month as int),
        0 <= r <= 334,
{
    if month == 2 {
        31
    } else if month == 3 {
        59
    } else if month == 4 {
        90
    } else if month == 5 {
        120
    } else if month == 6 {
        151
    } else if month == 7 {
        181
    } else if month == 8 {
        212
    } else if month == 9 {
        243
    } else if month == 10 {
        273
    } else if month == 11 {
        304
    } else if month == 12 {
        334
    } else {
        0
    }
}

proof fn lemma_short_number(s: Seq<char>)
    requires
        s.len() <= 4,
    ensures
        text::u64_value(s) matches Some(n) ==> n < 10000,
{
    reveal_with_fuel(text::digits_value, 6);
}

fn number_at(chars: &[char], from: usize, to: usize) -> (r: Option<u64>)
    requires
        from <= to <= chars@.len(),
        to - from <= 4,
    ensures
        r == field(chars@, from as int, to as int),
        r matches Some(n) ==> n < 10000,
{
    let s = text::string_of(chars, from, to);
    proof {
        lemma_short_number(s@);
    }
    text::parse_u64(s.as_str())
}

fn count_days(year: i64, month: u64, day: i64) -> (r: i64)
    requires
        0 <= year < 10000,
        0 <= day < 10000,
    ensures
        r == epoch_days(year as int, month as int, day as int),
        -1_000_000 < r < 4_000_000,
{
    let leap: i64 = if 3 <= month && month <= 12 && year % 4 == 0 && (year % 100 != 0 || year % 400
        == 0) {
        1
    } else {
        0
    };
    // Counted from 400 years earlier, which have 97 leap years, so that the divisions see no
    // negative number.
    let shifted: i64 = year + 399;
    let leaps: i64 = shifted / 4 - shifted / 100 + shifted / 400 - 97;
    assert(leaps == leap_years_before(year as int));
    assert(leap_years_before(1970) == 477);
    (year - 1970) * 365 + (leaps - 477) + month_days(month) + leap + day - 1
}

/// Reads a date such as `20240101T000000Z`.
pub fn parse_amz_date(date: &str) -> (r: Option<i64>)
    ensures
        match r {
            Some(t) => amz_seconds(date@) == Some(t as int),
            None => amz_seconds(date@) is None,
        },
        r matches Some(t) ==> -100_000_000_000 < t < 300_000_000_000_000,
{
    if !date.is_ascii() {
        return None;
    }
    let chars = text::chars_of(date);
    if chars.len() != 16 {
        return None;
    }
    let c = chars.as_slice();
    let year: i64 = match number_at(c, 0, 4) {
        Some(n) => n as i64,
        None => {
            return None;
        },
    };
    let month: u64 = match number_at(c, 4, 6) {
        Some(n) => n,
        None => {
            return None;
        },
    };
    let day: i64 = match number_at(c, 6, 8) {
        Some(n) => n as i64,
        None => {
            return None;
        },
    };
    let hour: i64 = match number_at(c, 9, 11) {
        Some(n) => n as i64,
        None => {
            return None;
        },
    };
    let min: i64 = match number_at(c, 11, 13) {
        Some(n) => n as i64,
        None => {
            return None;
        },
    };
    let sec: i64 = match number_at(c, 13, 15) {
        Some(n) => n as i64,
        None => {
            return None;
        },
    };
    let days: i64 = count_days(year, month, day);
    Some(days * 86400 + hour * 3600 + min * 60 + sec)
}

// ---------------------------------------------------------------- signatures

/// The path as it is signed: with a leading slash.
pub open spec fn canonical_path(path: Seq<char>) -> Seq<char> {
    if path.len() > 0 && path[0] == '/' {
        path
    } else {
        "/"@ + path
    }
}

/// The path as it is signed.
pub fn canonical_uri(path: &str) -> (r: String)
    ensures
        r@ == canonical_path(path@),
{
    let chars = text::chars_of(path);
    if chars.len() > 0 && chars[0] == '/' {
        return path.to_owned();
    }
    let mut out = "/".to_owned();
    out.append(path);
    out
}

/// The parts of a request that are signed, one to a line.
pub open spec fn canonical_text(
    method: Seq<char>,
    path: Seq<char>,
    query: Seq<char>,
    headers: Seq<char>,
    signed: Seq<char>,
    body_hash: Seq<char>,
) -> Seq<char> {
    method + "\n"@ + canonical_path(path) + "\n"@ + query + "\n"@ + headers + "\n"@ + signed + "\n"@
        + body_hash
}

fn canonical_request(
    method: &str,
    path: &str,
    query: &str,
    headers: &str,
    signed: &str,
    body_hash: &str,
) -> (r: String)
    ensures
        r@ == canonical_text(method@, path@, query@, headers@, signed@, body_hash@),
{
    let mut out = method.to_owned();
    out.append("\n");
    out.append(canonical_uri(path).as_str());
    out.append("\n");
    out.append(query);
    out.append("\n");
    out.append(headers);
    out.append("\n");
    out.append(signed);
    out.append("\n");
    out.append(body_hash);
    out
}

/// What a key is good for: a day, a region, and this service.
pub open spec fn scope(date: Seq<char>, region: Seq<char>) -> Seq<char> {
    date + "/"@ + region + "/s3/aws4_request"@
}

/// What is signed: the moment, the scope and the digest of the request.
pub open spec fn text_to_sign(
    amz_date: Seq<char>,
    date: Seq<char>,
    region: Seq<char>,
    request: Seq<char>,
) -> Seq<char> {
    "AWS4-HMAC-SHA256\n"@ + amz_date + "\n"@ + scope(date, region) + "\n"@ + digest::text_hash(
        request,
    )
}

/// The key that signs in a scope, made from the secret key step by step.
pub open spec fn signing_key(secret: Seq<char>, date: Seq<char>, region: Seq<char>) -> Seq<u8> {
    let day = hmac_code(encode_utf8("AWS4"@ + secret), encode_utf8(date));
    let place = hmac_code(day, encode_utf8(region));
    let service = hmac_code(place, encode_utf8("s3"@));
    hmac_code(service, encode_utf8("aws4_request"@))
}

/// The signature of a request.
pub open spec fn signature(
    secret: Seq<char>,
    amz_date: Seq<char>,
    date: Seq<char>,
    region: Seq<char>,
    request: Seq<char>,
) -> Seq<char> {
    digest::hex_chars(
        hmac_code(
            signing_key(secret, date, region),
            encode_utf8(text_to_sign(amz_date, date, region, request)),
        ),
    )
}

/// The key that signs in a scope.
pub fn derive_signing_key(secret_key: &str, date: &str, region: &str) -> (r: Vec<u8>)
    ensures
        r@ == signing_key(secret_key@, date@, region@),
{
    let mut start = "AWS4".to_owned();
    start.append(secret_key);
    let day = hmac_sha256(start.as_str().as_bytes(), date.as_bytes());
    let place = hmac_sha256(day.as_slice(), region.as_bytes());
    let service = hmac_sha256(place.as_slice(), "s3".as_bytes());
    hmac_sha256(service.as_slice(), "aws4_request".as_bytes())
}

/// Signs a request.
pub fn sign(secret_key: &str, amz_date: &str, date: &str, region: &str, request: &str) -> (r: String)
    ensures
        r@ == signature(secret_key@, amz_date@, date@, region@, request@),
{
    let mut signed = "AWS4-HMAC-SHA256\n".to_owned();
    signed.append(amz_date);
    signed.append("\n");
    let mut place = date.to_owned();
    place.append("/");
    place.append(region);
    place.append("/s3/aws4_request");
    signed.append(place.as_str());
    signed.append("\n");
    signed.append(digest::hash_hex(request).as_str());
    let key = derive_signing_key(secret_key, date, region);
    let code = hmac_sha256(key.as_slice(), signed.as_str().as_bytes());
    digest::hex_encode(code.as_slice())
}

fn same_signature(a: &str, b: &str) -> (r: bool)
    ensures
        r == (a@ == b@),
{
    let r = constant_time_eq(a.as_bytes(), b.as_bytes());
    proof {
        if r {
            text::lemma_same_bytes_same_chars(a@, b@);
        }
    }
    r
}

/// What stands behind the last of the parts that start with a name.
pub open spec fn last_after(parts: Seq<Seq<char>>, name: Seq<char>) -> Seq<char>
    decreases parts.len(),
{
    if parts.len() == 0 {
        Seq::empty()
    } else if text::has_prefix(parts.last(), name) {
        parts.last().skip(name.len() as int)
    } else {
        last_after(parts.drop_last(), name)
    }
}

fn find_last(parts: &Vec<String>, name: &str) -> (r: String)
    ensures
        r@ == last_after(order::views(parts@), name@),
{
    let ghost pv = order::views(parts@);
    let mut n: usize = parts.len();
    assert(pv.take(n as int) =~= pv);
    while n > 0
        invariant
            n <= parts@.len(),
            pv == order::views(parts@),
            last_after(pv, name@) == last_after(pv.take(n as int), name@),
        decreases n,
    {
        assert(pv.take(n as int).last() == pv[n - 1]);
        assert(pv.take(n as int).drop_last() =~= pv.take(n - 1));
        if let Some(v) = text::strip_prefix(parts[n - 1].as_str(), name) {
            return v.to_owned();
        }
        n = n - 1;
    }
    let none = String::new();
    assert(none@ =~= last_after(pv.take(0), name@));
    none
}

/// The seconds that the clocks of client and server may differ.
pub const MAX_SKEW: u64 = 900;

/// The seconds that a presigned URL may live: seven days.
pub const MAX_EXPIRES: u64 = 604800;

/// Two moments lie further apart than the clocks may differ.
pub open spec fn skewed(at: int, now: int) -> bool {
    at - now > MAX_SKEW || now - at > MAX_SKEW
}

/// Why a signed request is refused, if it is.
pub open spec fn refusal(
    method: Seq<char>,
    path: Seq<char>,
    query: Seq<char>,
    headers: Seq<(Seq<char>, Seq<char>)>,
    body_hash: Seq<char>,
    auth_header: Seq<char>,
    access_key: Seq<char>,
    secret_key: Seq<char>,
    now: int,
) -> Option<Seq<char>> {
    let lead = "AWS4-HMAC-SHA256 "@;
    if !text::has_prefix(auth_header, lead) {
        Some("missing AWS4-HMAC-SHA256 prefix"@)
    } else {
        let parts = split::text_pieces(auth_header.skip(lead.len() as int), ", "@);
        let credential = split::pieces(last_after(parts, "Credential="@), '/');
        let signed = last_after(parts, "SignedHeaders="@);
        if credential.len() != 5 {
            Some("invalid credential format"@)
        } else if credential[0] != access_key {
            Some("access key mismatch"@)
        } else {
            match header(headers, "x-amz-date"@) {
                None => Some("missing X-Amz-Date header"@),
                Some(amz_date) => if amz_seconds(amz_date) matches Some(t) && skewed(t, now) {
                    Some("request time too skewed"@)
                } else {
                    let request = canonical_text(
                        method,
                        path,
                        canonical_query_text(query),
                        canonical_headers(headers, split::pieces(signed, ';')),
                        signed,
                        body_hash,
                    );
                    if signature(secret_key, amz_date, credential[1], credential[2], request)
                        == last_after(parts, "Signature="@) {
                        None
                    } else {
                        Some("signature mismatch"@)
                    }
                },
            }
        }
    }
}

/// Checks the signature of a request at a given moment.
pub fn verify_sig_v4_at(
    method: &str,
    path: &str,
    query: &str,
    headers: &[(String, String)],
    body_hash: &str,
    auth_header: &str,
    access_key: &str,
    secret_key: &str,
    now: u64,
) -> (r: Result<(), String>)
    ensures
        match r {
            Ok(_) => refusal(
                method@,
                path@,
                query@,
                storage::pair_views(headers@),
                body_hash@,
                auth_header@,
                access_key@,
                secret_key@,
                now as int,
            ) is None,
            Err(m) => refusal(
                method@,
                path@,
                query@,
                storage::pair_views(headers@),
                body_hash@,
                auth_header@,
                access_key@,
                secret_key@,
                now as int,
            ) == Some(m@),
        },
{
    let auth = match text::strip_prefix(auth_header, "AWS4-HMAC-SHA256 ") {
        Some(a) => a,
        None => {
            return Err("missing AWS4-HMAC-SHA256 prefix".to_owned());
        },
    };
    proof {
        reveal_strlit(", ");
    }
    let parts = split::split_text(auth, ", ");
    let credential = find_last(&parts, "Credential=");
    let signed_headers = find_last(&parts, "SignedHeaders=");
    let provided = find_last(&parts, "Signature=");
    let cred = split::split(credential.as_str(), '/');
    let ghost cv = order::views(cred@);
    if cred.len() != 5 {
        return Err("invalid credential format".to_owned());
    }
    assert(cv[0] == cred@[0]@ && cv[1] == cred@[1]@ && cv[2] == cred@[2]@);
    if !text::str_eq(cred[0].as_str(), access_key) {
        return Err("access key mismatch".to_owned());
    }
    let amz_date = match find_header(headers, "x-amz-date") {
        Some(d) => d,
        None => {
            return Err("missing X-Amz-Date header".to_owned());
        },
    };
    if let Some(t) = parse_amz_date(amz_date) {
        let gap: i128 = t as i128 - now as i128;
        if gap > MAX_SKEW as i128 || -gap > MAX_SKEW as i128 {
            return Err("request time too skewed".to_owned());
        }
    }
    let names = split::split(signed_headers.as_str(), ';');
    let head = build_canonical_headers(headers, names.as_slice());
    let request = canonical_request(
        method,
        path,
        canonical_query(query).as_str(),
        head.as_str(),
        signed_headers.as_str(),
        body_hash,
    );
    let computed = sign(
        secret_key,
        amz_date,
        cred[1].as_str(),
        cred[2].as_str(),
        request.as_str(),
    );
    if same_signature(computed.as_str(), provided.as_str()) {
        Ok(())
    } else {
        Err("signature mismatch".to_owned())
    }
}

/// Checks the signature of a request by the wall clock.
pub fn verify_sig_v4(
    method: &str,
    path: &str,
    query: &str,
    headers: &[(String, String)],
    body_hash: &str,
    auth_header: &str,
    access_key: &str,
    secret_key: &str,
) -> (r: Result<(), String>)
    ensures
        exists|now: u64|
            (match r {
                Ok(_) => None::<Seq<char>>,
                Err(m) => Some(m@),
            }) == #[trigger] refusal(
                method@,
                path@,
                query@,
                storage::pair_views(headers@),
                body_hash@,
                auth_header@,
                access_key@,
                secret_key@,
                now as int,
            ),
{
    let now: u64 = time::unix_secs();
    verify_sig_v4_at(
        method,
        path,
        query,
        headers,
        body_hash,
        auth_header,
        access_key,
        secret_key,
        now,
    )
}

// -------------------------------------------------------------- presigned URLs

/// Whether a query carries the parameters of a presigned URL.
pub fn is_presigned(query: &str) -> (r: bool)
    ensures
        r == (split::holds(query@, "X-Amz-Algorithm"@) || split::holds(
            query@,
            "X-Amz-Credential"@,
        )),
{
    split::contains(query, "X-Amz-Algorithm") || split::contains(query, "X-Amz-Credential")
}

/// Why the times of a presigned URL do not allow its use, if they do not.
pub open spec fn time_refusal(at: int, expires: Seq<char>, now: int) -> Option<Seq<char>> {
    if at > now + MAX_SKEW {
        Some("request date is in the future"@)
    } else {
        match text::u64_value(expires) {
            None => Some("invalid X-Amz-Expires"@),
            Some(e) => if e > MAX_EXPIRES {
                Some("expires too large (max 7 days)"@)
            } else if now > at + e {
                Some("presigned URL has expired"@)
            } else {
                None
            },
        }
    }
}

/// Why a presigned URL is refused, if it is.
pub open spec fn presigned_refusal(
    method: Seq<char>,
    path: Seq<char>,
    query: Seq<char>,
    headers: Seq<(Seq<char>, Seq<char>)>,
    access_key: Seq<char>,
    secret_key: Seq<char>,
    now: int,
) -> Option<Seq<char>> {
    let params = query::by_name(decoded_parameters(query));
    if !params.contains_key("X-Amz-Algorithm"@) {
        Some("missing X-Amz-Algorithm"@)
    } else if params["X-Amz-Algorithm"@] != "AWS4-HMAC-SHA256"@ {
        Some("unsupported algorithm"@)
    } else if !params.contains_key("X-Amz-Credential"@) {
        Some("missing X-Amz-Credential"@)
    } else if !params.contains_key("X-Amz-Date"@) {
        Some("missing X-Amz-Date"@)
    } else if !params.contains_key("X-Amz-Expires"@) {
        Some("missing X-Amz-Expires"@)
    } else if !params.contains_key("X-Amz-SignedHeaders"@) {
        Some("missing X-Amz-SignedHeaders"@)
    } else if !params.contains_key("X-Amz-Signature"@) {
        Some("missing X-Amz-Signature"@)
    } else {
        let credential = split::pieces(params["X-Amz-Credential"@], '/');
        let amz_date = params["X-Amz-Date"@];
        let signed = params["X-Amz-SignedHeaders"@];
        if credential.len() != 5 {
            Some("invalid credential format"@)
        } else if credential[0] != access_key {
            Some("access key mismatch"@)
        } else {
            match amz_seconds(amz_date) {
                None => Some("invalid X-Amz-Date"@),
                Some(t) => match time_refusal(t, params["X-Amz-Expires"@], now) {
                    Some(m) => Some(m),
                    None => {
                        let request = canonical_text(
                            method,
                            path,
                            presigned_query_text(query),
                            canonical_headers(headers, split::pieces(signed, ';')),
                            signed,
                            "UNSIGNED-PAYLOAD"@,
                        );
                        if signature(secret_key, amz_date, credential[1], credential[2], request)
                            == params["X-Amz-Signature"@] {
                            None
                        } else {
                            Some("signature mismatch"@)
                        }
                    },
                },
            }
        }
    }
}

fn check_times(at: i64, expires: &str, now: u64) -> (r: Result<(), String>)
    ensures
        match r {
            Ok(_) => time_refusal(at as int, expires@, now as int) is None,
            Err(m) => time_refusal(at as int, expires@, now as int) == Some(m@),
        },
{
    if at as i128 > now as i128 + MAX_SKEW as i128 {
        return Err("request date is in the future".to_owned());
    }
    let e: u64 = match text::parse_u64(expires) {
        Some(e) => e,
        None => {
            return Err("invalid X-Amz-Expires".to_owned());
        },
    };
    if e > MAX_EXPIRES {
        return Err("expires too large (max 7 days)".to_owned());
    }
    if now as i128 > at as i128 + e as i128 {
        return Err("presigned URL has expired".to_owned());
    }
    Ok(())
}

/// Checks a presigned URL at a given moment.
pub fn verify_presigned_v4_at(
    method: &str,
    path: &str,
    query: &str,
    headers: &[(String, String)],
    access_key: &str,
    secret_key: &str,
    now: u64,
) -> (r: Result<(), String>)
    ensures
        match r {
            Ok(_) => presigned_refusal(
                method@,
                path@,
                query@,
                storage::pair_views(headers@),
                access_key@,
                secret_key@,
                now as int,
            ) is None,
            Err(m) => presigned_refusal(
                method@,
                path@,
                query@,
                storage::pair_views(headers@),
                access_key@,
                secret_key@,
                now as int,
            ) == Some(m@),
        },
{
    let params = parse_query_params(query);
    let algorithm = match query::lookup(&params, "X-Amz-Algorithm") {
        Some(v) => v,
        None => {
            return Err("missing X-Amz-Algorithm".to_owned());
        },
    };
    if !text::str_eq(algorithm, "AWS4-HMAC-SHA256") {
        return Err("unsupported algorithm".to_owned());
    }
    let credential = match query::lookup(&params, "X-Amz-Credential") {
        Some(v) => v,
        None => {
            return Err("missing X-Amz-Credential".to_owned());
        },
    };
    let amz_date = match query::lookup(&params, "X-Amz-Date") {
        Some(v) => v,
        None => {
            return Err("missing X-Amz-Date".to_owned());
        },
    };
    let expires = match query::lookup(&params, "X-Amz-Expires") {
        Some(v) => v,
        None => {
            return Err("missing X-Amz-Expires".to_owned());
        },
    };
    let signed_headers = match query::lookup(&params, "X-Amz-SignedHeaders") {
        Some(v) => v,
        None => {
            return Err("missing X-Amz-SignedHeaders".to_owned());
        },
    };
    let provided = match query::lookup(&params, "X-Amz-Signature") {
        Some(v) => v,
        None => {
            return Err("missing X-Amz-Signature".to_owned());
        },
    };
    let cred = split::split(credential, '/');
    let ghost cv = order::views(cred@);
    if cred.len() != 5 {
        return Err("invalid credential format".to_owned());
    }
    assert(cv[0] == cred@[0]@ && cv[1] == cred@[1]@ && cv[2] == cred@[2]@);
    if !text::str_eq(cred[0].as_str(), access_key) {
        return Err("access key mismatch".to_owned());
    }
    let at: i64 = match parse_amz_date(amz_date) {
        Some(t) => t,
        None => {
            return Err("invalid X-Amz-Date".to_owned());
        },
    };
    if let Err(m) = check_times(at, expires, now) {
        return Err(m);
    }
    let names = split::split(signed_headers, ';');
    let head = build_canonical_headers(headers, names.as_slice());
    let request = canonical_request(
        method,
        path,
        canonical_query_presigned(query).as_str(),
        head.as_str(),
        signed_headers,
        "UNSIGNED-PAYLOAD",
    );
    let computed = sign(
        secret_key,
        amz_date,
        cred[1].as_str(),
        cred[2].as_str(),
        request.as_str(),
    );
    if same_signature(computed.as_str(), provided) {
        Ok(())
    } else {
        Err("signature mismatch".to_owned())
    }
}

/// Checks a presigned URL by the wall clock.
pub fn verify_presigned_v4(
    method: &str,
    path: &str,
    query: &str,
    headers: &[(String, String)],
    access_key: &str,
    secret_key: &str,
) -> (r: Result<(), String>)
    ensures
        exists|now: u64|
            (match r {
                Ok(_) => None::<Seq<char>>,
                Err(m) => Some(m@),
            }) == #[trigger] presigned_refusal(
                method@,
                path@,
                query@,
                storage::pair_views(headers@),
                access_key@,
                secret_key@,
                now as int,
            ),
{
    let now: u64 = time::unix_secs();
    verify_presigned_v4_at(method, path, query, headers, access_key, secret_key, now)
}

} // verus!

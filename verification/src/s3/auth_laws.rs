//! What holds of signed requests and presigned URLs.

use vstd::prelude::*;
use vstd::relations::*;
use vstd::seq_lib::*;
use vstd::utf8::*;

use super::auth;
use super::dates;
use crate::digest;
use crate::query;
use crate::split;
use crate::text;

verus! {

/// The value of the `Authorization` header of a signed request.
pub open spec fn authorization(
    access_key: Seq<char>,
    date: Seq<char>,
    region: Seq<char>,
    signed: Seq<char>,
    sig: Seq<char>,
) -> Seq<char> {
    "AWS4-HMAC-SHA256 "@ + ("Credential="@ + (access_key + "/"@ + auth::scope(date, region)) + ", "@
        + ("SignedHeaders="@ + signed) + ", "@ + ("Signature="@ + sig))
}

proof fn lemma_first_comma(a: Seq<char>, rest: Seq<char>, from: int)
    requires
        split::free_of(a, ','),
        0 <= from <= a.len(),
    ensures
        split::first_match(a + ", "@ + rest, ", "@, from) == Some(a.len() as int),
    decreases a.len() - from,
{
    reveal_strlit(", ");
    let s = a + ", "@ + rest;
    if from == a.len() {
        assert(s.skip(from).take(2) =~= ", "@);
    } else {
        assert(s.skip(from)[0] == a[from]);
        assert(s.skip(from).take(2)[0] != ", "@[0]);
        lemma_first_comma(a, rest, from + 1);
    }
}

proof fn lemma_no_comma(a: Seq<char>, from: int)
    requires
        split::free_of(a, ','),
        0 <= from,
    ensures
        split::first_match(a, ", "@, from) is None,
    decreases a.len() + 1 - from,
{
    reveal_strlit(", ");
    if from <= a.len() {
        if text::has_prefix(a.skip(from), ", "@) {
            assert(a.skip(from).take(2)[0] == ',');
            assert(a.skip(from)[0] == a[from]);
        }
        lemma_no_comma(a, from + 1);
    }
}

proof fn lemma_three_parts(a: Seq<char>, b: Seq<char>, c: Seq<char>)
    requires
        split::free_of(a, ','),
        split::free_of(b, ','),
        split::free_of(c, ','),
    ensures
        split::text_pieces(a + ", "@ + b + ", "@ + c, ", "@) == seq![a, b, c],
{
    reveal_strlit(", ");
    let rest = b + ", "@ + c;
    let all = a + ", "@ + rest;
    assert(all =~= a + ", "@ + b + ", "@ + c);
    lemma_first_comma(a, rest, 0);
    assert(all.take(a.len() as int) =~= a);
    assert(all.skip(a.len() as int + 2) =~= rest);
    lemma_first_comma(b, c, 0);
    assert(rest.take(b.len() as int) =~= b);
    assert(rest.skip(b.len() as int + 2) =~= c);
    lemma_no_comma(c, 0);
    assert(split::text_pieces(c, ", "@) =~= seq![c]);
    assert(split::text_pieces(rest, ", "@) =~= seq![b, c]);
    assert(split::text_pieces(all, ", "@) =~= seq![a, b, c]);
}

proof fn lemma_first_slash(a: Seq<char>, rest: Seq<char>, from: int)
    requires
        split::free_of(a, '/'),
        0 <= from <= a.len(),
        a.len() <= usize::MAX,
    ensures
        text::first_index(a + "/"@ + rest, '/', from) == Some(a.len() as usize),
    decreases a.len() - from,
{
    reveal_strlit("/");
    let s = a + "/"@ + rest;
    if from < a.len() {
        assert(s[from] == a[from]);
        lemma_first_slash(a, rest, from + 1);
    }
}

proof fn lemma_no_slash(a: Seq<char>, from: int)
    requires
        split::free_of(a, '/'),
        0 <= from,
    ensures
        text::first_index(a, '/', from) is None,
    decreases a.len() - from,
{
    if from < a.len() {
        lemma_no_slash(a, from + 1);
    }
}

proof fn lemma_slash_step(a: Seq<char>, rest: Seq<char>)
    requires
        split::free_of(a, '/'),
        a.len() <= usize::MAX,
    ensures
        split::pieces(a + "/"@ + rest, '/') == seq![a] + split::pieces(rest, '/'),
{
    reveal_strlit("/");
    let s = a + "/"@ + rest;
    lemma_first_slash(a, rest, 0);
    assert(s.take(a.len() as int) =~= a);
    assert(s.skip(a.len() as int + 1) =~= rest);
}

proof fn lemma_credential(access_key: Seq<char>, date: Seq<char>, region: Seq<char>)
    requires
        split::free_of(access_key, '/'),
        split::free_of(date, '/'),
        split::free_of(region, '/'),
        access_key.len() + date.len() + region.len() <= usize::MAX,
    ensures
        ({
            let p = split::pieces(access_key + "/"@ + auth::scope(date, region), '/');
            p.len() == 5 && p[0] == access_key && p[1] == date && p[2] == region
        }),
{
    reveal_strlit("/");
    reveal_strlit("/s3/aws4_request");
    reveal_strlit("s3");
    reveal_strlit("aws4_request");
    let tail = "s3"@ + "/"@ + "aws4_request"@;
    assert("/s3/aws4_request"@ =~= "/"@ + tail);
    let three = region + "/"@ + tail;
    let two = date + "/"@ + three;
    assert(auth::scope(date, region) =~= two);
    lemma_slash_step(access_key, two);
    lemma_slash_step(date, three);
    lemma_slash_step(region, tail);
    lemma_slash_step("s3"@, "aws4_request"@);
    lemma_no_slash("aws4_request"@, 0);
}

proof fn lemma_hex_plain(bytes: Seq<u8>)
    ensures
        split::free_of(digest::hex_chars(bytes), ','),
{
    let s = digest::hex_chars(bytes);
    assert forall|i: int| 0 <= i < s.len() implies #[trigger] s[i] != ',' by {
    }
}

proof fn lemma_named_parts(a: Seq<char>, b: Seq<char>, c: Seq<char>)
    ensures
        ({
            let parts = seq!["Credential="@ + a, "SignedHeaders="@ + b, "Signature="@ + c];
            &&& auth::last_after(parts, "Credential="@) == a
            &&& auth::last_after(parts, "SignedHeaders="@) == b
            &&& auth::last_after(parts, "Signature="@) == c
        }),
{
    reveal_strlit("Credential=");
    reveal_strlit("SignedHeaders=");
    reveal_strlit("Signature=");
    let x = "Credential="@ + a;
    let y = "SignedHeaders="@ + b;
    let z = "Signature="@ + c;
    let parts = seq![x, y, z];
    assert(parts.drop_last() =~= seq![x, y]);
    assert(parts.drop_last().drop_last() =~= seq![x]);
    assert(x.take(11) =~= "Credential="@);
    assert(x.skip(11) =~= a);
    assert(y.take(14) =~= "SignedHeaders="@);
    assert(y.skip(14) =~= b);
    assert(z.take(10) =~= "Signature="@);
    assert(z.skip(10) =~= c);
    assert(y[0] == 'S' && z[0] == 'S');
    assert(y[4] == 'e' && z[4] == 'a');
    assert(!text::has_prefix(y, "Credential="@)) by {
        if text::has_prefix(y, "Credential="@) {
            assert(y.take(11)[0] == "Credential="@[0]);
        }
    }
    assert(!text::has_prefix(z, "Credential="@)) by {
        if text::has_prefix(z, "Credential="@) {
            assert(z.take(11)[0] == "Credential="@[0]);
        }
    }
    assert(!text::has_prefix(z, "SignedHeaders="@)) by {
        if text::has_prefix(z, "SignedHeaders="@) {
            assert(z.take(14)[4] == "SignedHeaders="@[4]);
        }
    }
    assert(text::has_prefix(x, "Credential="@));
    assert(text::has_prefix(y, "SignedHeaders="@));
    assert(text::has_prefix(z, "Signature="@));
    assert(auth::last_after(seq![x], "Credential="@) == a) by {
        assert(seq![x].last() == x);
    }
    assert(auth::last_after(seq![x, y], "Credential="@) == a) by {
        assert(seq![x, y].last() == y);
        assert(seq![x, y].drop_last() =~= seq![x]);
    }
    assert(auth::last_after(seq![x, y], "SignedHeaders="@) == b) by {
        assert(seq![x, y].last() == y);
    }
}

/// What is read of the header of a signed request.
pub proof fn lemma_authorization(
    access_key: Seq<char>,
    date: Seq<char>,
    region: Seq<char>,
    signed: Seq<char>,
    sig: Seq<char>,
)
    requires
        split::free_of(access_key, '/') && split::free_of(access_key, ','),
        split::free_of(date, '/') && split::free_of(date, ','),
        split::free_of(region, '/') && split::free_of(region, ','),
        split::free_of(signed, ','),
        split::free_of(sig, ','),
        access_key.len() + date.len() + region.len() <= usize::MAX,
    ensures
        ({
            let whole = authorization(access_key, date, region, signed, sig);
            let lead = "AWS4-HMAC-SHA256 "@;
            let parts = split::text_pieces(whole.skip(lead.len() as int), ", "@);
            let credential = split::pieces(auth::last_after(parts, "Credential="@), '/');
            &&& text::has_prefix(whole, lead)
            &&& credential.len() == 5
            &&& credential[0] == access_key
            &&& credential[1] == date
            &&& credential[2] == region
            &&& auth::last_after(parts, "SignedHeaders="@) == signed
            &&& auth::last_after(parts, "Signature="@) == sig
        }),
{
    let credential = access_key + "/"@ + auth::scope(date, region);
    let whole = authorization(access_key, date, region, signed, sig);
    let lead = "AWS4-HMAC-SHA256 "@;
    let a = "Credential="@ + credential;
    let b = "SignedHeaders="@ + signed;
    let c = "Signature="@ + sig;
    let rest = a + ", "@ + b + ", "@ + c;
    assert(whole =~= lead + rest);
    assert(whole.take(lead.len() as int) =~= lead);
    assert(whole.skip(lead.len() as int) =~= rest);
    reveal_strlit("Credential=");
    reveal_strlit("SignedHeaders=");
    reveal_strlit("Signature=");
    reveal_strlit("/");
    reveal_strlit("/s3/aws4_request");
    assert(split::free_of(credential, ','));
    assert(split::free_of(a, ','));
    assert(split::free_of(b, ','));
    assert(split::free_of(c, ','));
    lemma_three_parts(a, b, c);
    lemma_named_parts(credential, signed, sig);
    lemma_credential(access_key, date, region);
}

/// A request that was signed with the server's keys, at a moment that the clocks allow, is
/// accepted: neither the order of its parameters nor the case of its header names matters
/// for that.
pub proof fn law_signed_request_is_accepted(
    method: Seq<char>,
    path: Seq<char>,
    query: Seq<char>,
    headers: Seq<(Seq<char>, Seq<char>)>,
    body_hash: Seq<char>,
    access_key: Seq<char>,
    secret_key: Seq<char>,
    amz_date: Seq<char>,
    date: Seq<char>,
    region: Seq<char>,
    signed: Seq<char>,
    now: int,
)
    requires
        split::free_of(access_key, '/') && split::free_of(access_key, ','),
        split::free_of(date, '/') && split::free_of(date, ','),
        split::free_of(region, '/') && split::free_of(region, ','),
        split::free_of(signed, ','),
        access_key.len() + date.len() + region.len() <= usize::MAX,
        auth::header(headers, "x-amz-date"@) == Some(amz_date),
        auth::amz_seconds(amz_date) matches Some(t) ==> !auth::skewed(t, now),
    ensures
        ({
            let request = auth::canonical_text(
                method,
                path,
                auth::canonical_query_text(query),
                auth::canonical_headers(headers, split::pieces(signed, ';')),
                signed,
                body_hash,
            );
            auth::refusal(
                method,
                path,
                query,
                headers,
                body_hash,
                authorization(
                    access_key,
                    date,
                    region,
                    signed,
                    auth::signature(secret_key, amz_date, date, region, request),
                ),
                access_key,
                secret_key,
                now,
            ) is None
        }),
{
    let request = auth::canonical_text(
        method,
        path,
        auth::canonical_query_text(query),
        auth::canonical_headers(headers, split::pieces(signed, ';')),
        signed,
        body_hash,
    );
    let sig = auth::signature(secret_key, amz_date, date, region, request);
    lemma_hex_plain(
        auth::hmac_code(
            auth::signing_key(secret_key, date, region),
            encode_utf8(auth::text_to_sign(amz_date, date, region, request)),
        ),
    );
    lemma_authorization(access_key, date, region, signed, sig);
}

/// A request that is accepted names the server's access key and carries the signature that
/// the server's secret key gives it. Where its date can be read, the clocks allow it.
pub proof fn law_accepted_request_is_signed(
    method: Seq<char>,
    path: Seq<char>,
    query: Seq<char>,
    headers: Seq<(Seq<char>, Seq<char>)>,
    body_hash: Seq<char>,
    auth_header: Seq<char>,
    access_key: Seq<char>,
    secret_key: Seq<char>,
    now: int,
)
    requires
        auth::refusal(
            method,
            path,
            query,
            headers,
            body_hash,
            auth_header,
            access_key,
            secret_key,
            now,
        ) is None,
    ensures
        ({
            let parts = split::text_pieces(
                auth_header.skip("AWS4-HMAC-SHA256 "@.len() as int),
                ", "@,
            );
            let credential = split::pieces(auth::last_after(parts, "Credential="@), '/');
            let signed = auth::last_after(parts, "SignedHeaders="@);
            &&& credential.len() == 5
            &&& credential[0] == access_key
            &&& auth::header(headers, "x-amz-date"@) matches Some(amz_date)
            &&& auth::amz_seconds(amz_date) matches Some(t) ==> !auth::skewed(t, now)
            &&& auth::last_after(parts, "Signature="@) == auth::signature(
                secret_key,
                amz_date,
                credential[1],
                credential[2],
                auth::canonical_text(
                    method,
                    path,
                    auth::canonical_query_text(query),
                    auth::canonical_headers(headers, split::pieces(signed, ';')),
                    signed,
                    body_hash,
                ),
            )
        }),
{
}

/// A presigned URL is accepted at most a quarter of an hour before its date, and at most
/// seven days after it.
pub proof fn law_presigned_url_expires(
    method: Seq<char>,
    path: Seq<char>,
    query: Seq<char>,
    headers: Seq<(Seq<char>, Seq<char>)>,
    access_key: Seq<char>,
    secret_key: Seq<char>,
    now: int,
)
    requires
        auth::presigned_refusal(
            method,
            path,
            query,
            headers,
            access_key,
            secret_key,
            now,
        ) is None,
    ensures
        auth::amz_seconds(
            query::by_name(auth::decoded_parameters(query))["X-Amz-Date"@],
        ) matches Some(t) && t - auth::MAX_SKEW <= now <= t + auth::MAX_EXPIRES,
{
}

/// What is signed does not depend on the order in which the parameters stand.
pub proof fn law_parameter_order_is_irrelevant(a: Seq<char>, b: Seq<char>)
    requires
        a.len() > 0,
        b.len() > 0,
        auth::parameters(a).to_multiset() == auth::parameters(b).to_multiset(),
    ensures
        auth::canonical_query_text(a) == auth::canonical_query_text(b),
{
    let r = |x: (Seq<char>, Seq<char>), y: (Seq<char>, Seq<char>)| split::pair_before(x, y);
    let x = auth::parameters(a);
    let y = auth::parameters(b);
    split::lemma_pair_order();
    x.lemma_sort_by_ensures(r);
    y.lemma_sort_by_ensures(r);
    lemma_sorted_unique(x.sort_by(r), y.sort_by(r), r);
}

proof fn lemma_nothing_escaped(bytes: Seq<u8>)
    requires
        forall|i: int| 0 <= i < bytes.len() ==> #[trigger] bytes[i] != 37,
    ensures
        auth::unescaped(bytes) == bytes,
    decreases bytes.len(),
{
    if bytes.len() > 0 {
        assert(bytes[0] != 37);
        assert forall|i: int| 0 <= i < bytes.skip(1).len() implies #[trigger] bytes.skip(1)[i]
            != 37 by {
            assert(bytes.skip(1)[i] == bytes[i + 1]);
        }
        lemma_nothing_escaped(bytes.skip(1));
        assert(seq![bytes[0]] + bytes.skip(1) =~= bytes);
    }
}

/// A text without a percent sign among its bytes stands for itself.
pub proof fn law_plain_text_decodes_to_itself(s: Seq<char>)
    requires
        forall|i: int| 0 <= i < encode_utf8(s).len() ==> #[trigger] encode_utf8(s)[i] != 37,
    ensures
        auth::percent_decoded(s) == s,
{
    lemma_nothing_escaped(encode_utf8(s));
    encode_utf8_valid_utf8(s);
    encode_utf8_decode_utf8(s);
}

proof fn lemma_days_to_year(year: int)
    requires
        year >= 1970,
    ensures
        dates::days_to_year(year) == (year - 1970) * 365 + (auth::leap_years_before(year)
            - auth::leap_years_before(1970)),
    decreases year,
{
    if year > 1970 {
        lemma_days_to_year(year - 1);
        let y = year - 1;
        assert(auth::leap_years_before(year) - auth::leap_years_before(y) == (if dates::leap(y) {
            1int
        } else {
            0int
        }));
    }
}

/// The days that a signed request's date counts are those of the calendar.
pub proof fn law_signed_dates_are_calendar_dates(d: dates::Date)
    requires
        dates::valid(d),
    ensures
        auth::epoch_days(d.year, d.month + 1, d.day) == dates::day_number(d),
{
    lemma_days_to_year(d.year);
    reveal_with_fuel(dates::days_to_month, 13);
}

} // verus!

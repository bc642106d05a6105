//! What a client signs, spelled out, and that exactly this is accepted.

use vstd::prelude::*;
use vstd::relations::*;
use vstd::seq_lib::*;
use vstd::utf8::*;

use super::auth;
use super::auth_laws;
use crate::digest;
use crate::query;
use crate::split;
use crate::text;
use crate::text_laws;

verus! {

// --------------------------------------------------------------- the client

/// A parameter as a client sends it: its name, its value, and whether the equals sign is left
/// out.
pub struct Sent {
    pub name: Seq<char>,
    pub value: Seq<char>,
    pub bare: bool,
}

/// Names and values hold none of the signs that part them; only an empty value may go without
/// its equals sign.
pub open spec fn sendable(p: Sent) -> bool {
    &&& p.name.len() > 0
    &&& split::free_of(p.name, '&') && split::free_of(p.name, '=')
    &&& split::free_of(p.value, '&')
    &&& p.bare ==> p.value.len() == 0
}

/// One parameter in the query.
pub open spec fn sent_piece(p: Sent) -> Seq<char> {
    if p.bare {
        p.name
    } else {
        p.name + seq!['='] + p.value
    }
}

/// The query that a client sends.
pub open spec fn sent_query(sent: Seq<Sent>) -> Seq<char>
    decreases sent.len(),
{
    if sent.len() == 0 {
        Seq::empty()
    } else if sent.len() == 1 {
        sent_piece(sent[0])
    } else {
        sent_piece(sent[0]) + seq!['&'] + sent_query(sent.drop_first())
    }
}

/// The names and values that a client sends.
pub open spec fn sent_pairs(sent: Seq<Sent>) -> Seq<(Seq<char>, Seq<char>)> {
    Seq::new(sent.len(), |i: int| (sent[i].name, sent[i].value))
}

/// The query that a client signs: every name with an equals sign and its value.
pub open spec fn signed_query(pairs: Seq<(Seq<char>, Seq<char>)>) -> Seq<char>
    decreases pairs.len(),
{
    if pairs.len() == 0 {
        Seq::empty()
    } else if pairs.len() == 1 {
        pairs[0].0 + seq!['='] + pairs[0].1
    } else {
        pairs[0].0 + seq!['='] + pairs[0].1 + seq!['&'] + signed_query(pairs.drop_first())
    }
}

/// A text stands before another one, byte for byte.
pub open spec fn stands_before(a: Seq<char>, b: Seq<char>) -> bool {
    exists|i: int| #[trigger] text_laws::differ_at(encode_utf8(a), encode_utf8(b), i)
}

/// The pairs stand in the order in which they are signed: by name, and by value where the
/// names are the same.
pub open spec fn in_signing_order(pairs: Seq<(Seq<char>, Seq<char>)>) -> bool {
    forall|i: int, j: int|
        #![trigger pairs[i], pairs[j]]
        0 <= i < j < pairs.len() ==> stands_before(pairs[i].0, pairs[j].0) || (pairs[i].0
            == pairs[j].0 && (stands_before(pairs[i].1, pairs[j].1) || pairs[i].1 == pairs[j].1))
}

/// A header that a client signs: its lower-case name, its value, and the blanks around it on
/// the way.
pub struct SignedHeader {
    pub name: Seq<char>,
    pub value: Seq<char>,
    pub before: Seq<char>,
    pub after: Seq<char>,
}

/// The request carries a value under a name, whatever the case; a later one does not count.
pub open spec fn carries(
    headers: Seq<(Seq<char>, Seq<char>)>,
    name: Seq<char>,
    value: Seq<char>,
) -> bool {
    exists|i: int|
        {
            &&& 0 <= i < headers.len()
            &&& text::lower_case((#[trigger] headers[i]).0) == name
            &&& headers[i].1 == value
            &&& forall|j: int| 0 <= j < i ==> text::lower_case((#[trigger] headers[j]).0) != name
        }
}

/// The request carries the header.
pub open spec fn carried(headers: Seq<(Seq<char>, Seq<char>)>, h: SignedHeader) -> bool {
    &&& split::free_of(h.name, ';') && split::free_of(h.name, ',')
    &&& text_laws::blank(h.before) && text_laws::blank(h.after) && text_laws::tight(h.value)
    &&& carries(headers, h.name, h.before + h.value + h.after)
}

/// The headers as they are signed: name, colon and value, one to a line.
pub open spec fn signed_lines(signed: Seq<SignedHeader>) -> Seq<char>
    decreases signed.len(),
{
    if signed.len() == 0 {
        Seq::empty()
    } else {
        signed_lines(signed.drop_last()) + signed.last().name + seq![':'] + signed.last().value
            + seq!['\n']
    }
}

/// The names of the signed headers, with semicolons between them.
pub open spec fn signed_names(signed: Seq<SignedHeader>) -> Seq<char>
    decreases signed.len(),
{
    if signed.len() == 0 {
        Seq::empty()
    } else if signed.len() == 1 {
        signed[0].name
    } else {
        signed[0].name + seq![';'] + signed_names(signed.drop_first())
    }
}

/// The signature that a client makes for a request: over its method, path and parameters, its
/// headers and their names, and the digest of its body, each on a line of its own.
pub open spec fn client_signature(
    secret_key: Seq<char>,
    amz_date: Seq<char>,
    date: Seq<char>,
    region: Seq<char>,
    method: Seq<char>,
    path: Seq<char>,
    pairs: Seq<(Seq<char>, Seq<char>)>,
    signed: Seq<SignedHeader>,
    body_hash: Seq<char>,
) -> Seq<char> {
    let request = method + seq!['\n'] + path + seq!['\n'] + signed_query(pairs) + seq!['\n']
        + signed_lines(signed) + seq!['\n'] + signed_names(signed) + seq!['\n'] + body_hash;
    let statement = "AWS4-HMAC-SHA256"@ + seq!['\n'] + amz_date + seq!['\n'] + date + seq!['/']
        + region + seq!['/'] + "s3"@ + seq!['/'] + "aws4_request"@ + seq!['\n']
        + digest::hex_chars(digest::sha256_digest(encode_utf8(request)));
    let day = auth::hmac_code(encode_utf8("AWS4"@ + secret_key), encode_utf8(date));
    let place = auth::hmac_code(day, encode_utf8(region));
    let service = auth::hmac_code(place, encode_utf8("s3"@));
    let key = auth::hmac_code(service, encode_utf8("aws4_request"@));
    digest::hex_chars(auth::hmac_code(key, encode_utf8(statement)))
}

// ------------------------------------------------------------------- queries

proof fn lemma_piece(p: Sent)
    requires
        sendable(p),
        p.name.len() <= usize::MAX,
    ensures
        auth::parameter(sent_piece(p)) == (p.name, p.value),
        split::free_of(sent_piece(p), '&'),
{
    if p.bare {
        split::lemma_split_nowhere(p.name, '=');
        assert(p.value =~= Seq::<char>::empty());
    } else {
        split::lemma_split_at(p.name, '=', p.value);
        let s = sent_piece(p);
        assert forall|i: int| 0 <= i < s.len() implies #[trigger] s[i] != '&' by {
            if i < p.name.len() {
                assert(s[i] == p.name[i]);
            } else if i > p.name.len() {
                assert(s[i] == p.value[i - p.name.len() - 1]);
            }
        }
    }
}

proof fn lemma_sent(sent: Seq<Sent>)
    requires
        sent.len() > 0,
        forall|i: int| 0 <= i < sent.len() ==> sendable(#[trigger] sent[i]),
        sent_query(sent).len() <= usize::MAX,
    ensures
        auth::parameters(sent_query(sent)) == sent_pairs(sent),
        sent_query(sent).len() > 0,
        split::pieces(sent_query(sent), '&').len() == sent.len(),
        forall|i: int|
            0 <= i < sent.len() ==> #[trigger] split::pieces(sent_query(sent), '&')[i]
                == sent_piece(sent[i]),
    decreases sent.len(),
{
    let p = sent[0];
    let first = sent_piece(p);
    assert(sendable(sent[0]));
    if sent.len() == 1 {
        lemma_piece(p);
        split::lemma_split_nowhere(first, '&');
    } else {
        let rest = sent.drop_first();
        assert forall|i: int| 0 <= i < rest.len() implies sendable(#[trigger] rest[i]) by {
            assert(rest[i] == sent[i + 1]);
        }
        lemma_piece(p);
        lemma_sent(rest);
        split::lemma_split_at(first, '&', sent_query(rest));
        let all = split::pieces(sent_query(sent), '&');
        assert(all =~= seq![first] + split::pieces(sent_query(rest), '&'));
        assert forall|i: int| 0 <= i < sent.len() implies #[trigger] all[i] == sent_piece(
            sent[i],
        ) by {
            if i > 0 {
                assert(all[i] == split::pieces(sent_query(rest), '&')[i - 1]);
                assert(rest[i - 1] == sent[i]);
            }
        }
    }
    let all = split::pieces(sent_query(sent), '&');
    assert(auth::parameters(sent_query(sent)) =~= sent_pairs(sent)) by {
        assert forall|i: int| 0 <= i < sent.len() implies auth::parameter(#[trigger] all[i]) == (
            sent[i].name,
            sent[i].value,
        ) by {
            assert(sendable(sent[i]));
            lemma_short(sent, i);
            lemma_piece(sent[i]);
        }
    }
}

proof fn lemma_short(sent: Seq<Sent>, i: int)
    requires
        0 <= i < sent.len(),
    ensures
        sent[i].name.len() <= sent_piece(sent[i]).len() <= sent_query(sent).len(),
    decreases sent.len(),
{
    if sent.len() > 1 {
        if i > 0 {
            lemma_short(sent.drop_first(), i - 1);
            assert(sent.drop_first()[i - 1] == sent[i]);
        }
    }
}

proof fn lemma_signed_query(pairs: Seq<(Seq<char>, Seq<char>)>, last: (Seq<char>, Seq<char>))
    requires
        pairs.len() > 0,
    ensures
        signed_query(pairs.push(last)) == signed_query(pairs) + seq!['&'] + last.0 + seq!['=']
            + last.1,
    decreases pairs.len(),
{
    let all = pairs.push(last);
    if pairs.len() == 1 {
        assert(all.drop_first() =~= seq![last]);
        assert(signed_query(all.drop_first()) == last.0 + seq!['='] + last.1);
        assert(signed_query(all) =~= signed_query(pairs) + seq!['&'] + last.0 + seq!['=']
            + last.1);
    } else {
        assert(all.drop_first() =~= pairs.drop_first().push(last));
        lemma_signed_query(pairs.drop_first(), last);
        assert(signed_query(all) =~= signed_query(pairs) + seq!['&'] + last.0 + seq!['=']
            + last.1);
    }
}

proof fn lemma_written(pairs: Seq<(Seq<char>, Seq<char>)>)
    ensures
        auth::written(pairs) == signed_query(pairs),
    decreases pairs.len(),
{
    reveal_strlit("=");
    reveal_strlit("&");
    assert("="@ =~= seq!['=']);
    assert("&"@ =~= seq!['&']);
    if pairs.len() == 1 {
        assert(auth::written(pairs) =~= signed_query(pairs));
    } else if pairs.len() > 1 {
        let d = pairs.drop_last();
        lemma_written(d);
        lemma_signed_query(d, pairs.last());
        assert(pairs =~= d.push(pairs.last()));
        assert(auth::written(pairs) =~= signed_query(pairs));
    }
}

proof fn lemma_ordered(pairs: Seq<(Seq<char>, Seq<char>)>, sorted: Seq<(Seq<char>, Seq<char>)>)
    requires
        in_signing_order(sorted),
        sorted.to_multiset() == pairs.to_multiset(),
    ensures
        split::in_order(pairs) == sorted,
{
    let r = |a: (Seq<char>, Seq<char>), b: (Seq<char>, Seq<char>)| split::pair_before(a, b);
    split::lemma_pair_order();
    pairs.lemma_sort_by_ensures(r);
    assert forall|i: int, j: int| 0 <= i < j < sorted.len() implies #[trigger] r(
        sorted[i],
        sorted[j],
    ) by {
        let a = sorted[i];
        let b = sorted[j];
        text_laws::law_order_goes_by_the_first_difference(a.0, b.0);
        text_laws::law_order_goes_by_the_first_difference(a.1, b.1);
        split::lemma_text_total(a.1, b.1);
    }
    assert(sorted_by(sorted, r));
    lemma_sorted_unique(pairs.sort_by(r), sorted, r);
}

/// The query that a client signs is its parameters in order, each with an equals sign, also
/// where it was sent without one.
pub proof fn law_signed_query_is_spelled_out(
    sent: Seq<Sent>,
    sorted: Seq<(Seq<char>, Seq<char>)>,
)
    requires
        forall|i: int| 0 <= i < sent.len() ==> sendable(#[trigger] sent[i]),
        sent_query(sent).len() <= usize::MAX,
        in_signing_order(sorted),
        sorted.to_multiset() == sent_pairs(sent).to_multiset(),
    ensures
        auth::canonical_query_text(sent_query(sent)) == signed_query(sorted),
{
    if sent.len() == 0 {
        lemma_no_pairs(sorted, sent_pairs(sent));
    } else {
        lemma_sent(sent);
        lemma_ordered(sent_pairs(sent), sorted);
        lemma_written(sorted);
    }
}

proof fn lemma_no_pairs(a: Seq<(Seq<char>, Seq<char>)>, b: Seq<(Seq<char>, Seq<char>)>)
    requires
        a.to_multiset() == b.to_multiset(),
        b.len() == 0,
    ensures
        a.len() == 0,
{
    a.to_multiset_ensures();
    b.to_multiset_ensures();
}

/// A parameter without an equals sign is signed as its name, an equals sign and nothing; one
/// with an equals sign is signed as it stands.
pub proof fn law_single_parameter_is_signed(name: Seq<char>, value: Seq<char>)
    requires
        name.len() > 0,
        name.len() + value.len() < usize::MAX,
        split::free_of(name, '&') && split::free_of(name, '='),
        split::free_of(value, '&'),
    ensures
        auth::canonical_query_text(name) == name + seq!['='],
        auth::canonical_query_text(name + seq!['='] + value) == name + seq!['='] + value,
{
    let a = seq![Sent { name, value: Seq::empty(), bare: true }];
    let b = seq![Sent { name, value, bare: false }];
    assert(sent_pairs(a) =~= seq![(name, Seq::<char>::empty())]);
    assert(sent_pairs(b) =~= seq![(name, value)]);
    law_signed_query_is_spelled_out(a, sent_pairs(a));
    law_signed_query_is_spelled_out(b, sent_pairs(b));
    assert(name + seq!['='] + Seq::<char>::empty() =~= name + seq!['=']);
}

// ------------------------------------------------------------------- headers

proof fn lemma_carried(
    headers: Seq<(Seq<char>, Seq<char>)>,
    name: Seq<char>,
    i: int,
)
    requires
        0 <= i < headers.len(),
        text::lower_case(headers[i].0) == name,
        forall|j: int| 0 <= j < i ==> text::lower_case((#[trigger] headers[j]).0) != name,
    ensures
        auth::header(headers, name) == Some(headers[i].1),
    decreases headers.len(),
{
    if i > 0 {
        assert(text::lower_case(headers[0].0) != name);
        let t = headers.drop_first();
        assert forall|j: int| 0 <= j < i - 1 implies text::lower_case((#[trigger] t[j]).0)
            != name by {
            assert(t[j] == headers[j + 1]);
        }
        lemma_carried(t, name, i - 1);
        assert(t[i - 1] == headers[i]);
    }
}

proof fn lemma_carries(headers: Seq<(Seq<char>, Seq<char>)>, name: Seq<char>, value: Seq<char>)
    requires
        carries(headers, name, value),
    ensures
        auth::header(headers, name) == Some(value),
{
    let i = choose|i: int|
        {
            &&& 0 <= i < headers.len()
            &&& text::lower_case((#[trigger] headers[i]).0) == name
            &&& headers[i].1 == value
            &&& forall|j: int| 0 <= j < i ==> text::lower_case((#[trigger] headers[j]).0) != name
        };
    lemma_carried(headers, name, i);
}

/// The names of the signed headers.
pub open spec fn name_list(signed: Seq<SignedHeader>) -> Seq<Seq<char>> {
    Seq::new(signed.len(), |i: int| signed[i].name)
}

proof fn lemma_lines(headers: Seq<(Seq<char>, Seq<char>)>, signed: Seq<SignedHeader>)
    requires
        forall|i: int| 0 <= i < signed.len() ==> carried(headers, #[trigger] signed[i]),
    ensures
        auth::canonical_headers(headers, name_list(signed)) == signed_lines(signed),
    decreases signed.len(),
{
    reveal_strlit(":");
    reveal_strlit("\n");
    assert(":"@ =~= seq![':']);
    assert("\n"@ =~= seq!['\n']);
    if signed.len() > 0 {
        let d = signed.drop_last();
        let h = signed.last();
        assert(carried(headers, signed[signed.len() - 1]));
        assert forall|i: int| 0 <= i < d.len() implies carried(headers, #[trigger] d[i]) by {
            assert(d[i] == signed[i]);
        }
        lemma_lines(headers, d);
        assert(name_list(signed).drop_last() =~= name_list(d));
        assert(name_list(signed).last() == h.name);
        lemma_carries(headers, h.name, h.before + h.value + h.after);
        text_laws::law_blanks_are_cut_off(h.before, h.value, h.after);
    }
}

proof fn lemma_names(signed: Seq<SignedHeader>)
    requires
        signed.len() > 0,
        forall|i: int|
            0 <= i < signed.len() ==> split::free_of((#[trigger] signed[i]).name, ';')
                && split::free_of(signed[i].name, ','),
        signed_names(signed).len() <= usize::MAX,
    ensures
        split::pieces(signed_names(signed), ';') == name_list(signed),
        split::free_of(signed_names(signed), ','),
    decreases signed.len(),
{
    let n = signed[0].name;
    if signed.len() == 1 {
        split::lemma_split_nowhere(n, ';');
        assert(name_list(signed) =~= seq![n]);
    } else {
        let rest = signed.drop_first();
        assert forall|i: int| 0 <= i < rest.len() implies split::free_of(
            (#[trigger] rest[i]).name,
            ';',
        ) && split::free_of(rest[i].name, ',') by {
            assert(rest[i] == signed[i + 1]);
        }
        lemma_names(rest);
        split::lemma_split_at(n, ';', signed_names(rest));
        assert(name_list(signed) =~= seq![n] + name_list(rest));
        let s = signed_names(signed);
        assert forall|i: int| 0 <= i < s.len() implies #[trigger] s[i] != ',' by {
            if i < n.len() {
                assert(s[i] == n[i]);
            } else if i > n.len() {
                assert(s[i] == signed_names(rest)[i - n.len() - 1]);
            }
        }
    }
}

// ---------------------------------------------------------------- signatures

proof fn lemma_signature(
    secret_key: Seq<char>,
    amz_date: Seq<char>,
    date: Seq<char>,
    region: Seq<char>,
    method: Seq<char>,
    path: Seq<char>,
    pairs: Seq<(Seq<char>, Seq<char>)>,
    signed: Seq<SignedHeader>,
    body_hash: Seq<char>,
)
    requires
        path.len() > 0 && path[0] == '/',
    ensures
        auth::signature(
            secret_key,
            amz_date,
            date,
            region,
            auth::canonical_text(
                method,
                path,
                signed_query(pairs),
                signed_lines(signed),
                signed_names(signed),
                body_hash,
            ),
        ) == client_signature(
            secret_key,
            amz_date,
            date,
            region,
            method,
            path,
            pairs,
            signed,
            body_hash,
        ),
{
    reveal_strlit("\n");
    reveal_strlit("/");
    reveal_strlit("s3");
    reveal_strlit("aws4_request");
    reveal_strlit("/s3/aws4_request");
    reveal_strlit("AWS4-HMAC-SHA256\n");
    reveal_strlit("AWS4-HMAC-SHA256");
    assert("\n"@ =~= seq!['\n']);
    assert("/"@ =~= seq!['/']);
    assert("/s3/aws4_request"@ =~= seq!['/'] + "s3"@ + seq!['/'] + "aws4_request"@);
    assert("AWS4-HMAC-SHA256\n"@ =~= "AWS4-HMAC-SHA256"@ + seq!['\n']);
    let request = method + seq!['\n'] + path + seq!['\n'] + signed_query(pairs) + seq!['\n']
        + signed_lines(signed) + seq!['\n'] + signed_names(signed) + seq!['\n'] + body_hash;
    assert(auth::canonical_text(
        method,
        path,
        signed_query(pairs),
        signed_lines(signed),
        signed_names(signed),
        body_hash,
    ) =~= request);
    assert(auth::text_to_sign(amz_date, date, region, request) =~= "AWS4-HMAC-SHA256"@ + seq!['\n']
        + amz_date + seq!['\n'] + date + seq!['/'] + region + seq!['/'] + "s3"@ + seq!['/']
        + "aws4_request"@ + seq!['\n'] + digest::hex_chars(
        digest::sha256_digest(encode_utf8(request)),
    ));
}

/// A request with the server's access key, sent at a moment that the clocks allow, is accepted
/// exactly where it carries the signature that a client with the server's secret key makes
/// over what it sends: its method, its path, its parameters in order and each with an equals
/// sign, the headers that it names with the blanks around them cut off, and the digest of its
/// body. It does not matter in which order the parameters were sent, nor whether an empty
/// value was sent without its equals sign.
pub proof fn law_exactly_the_client_signature_is_accepted(
    method: Seq<char>,
    path: Seq<char>,
    sent: Seq<Sent>,
    sorted: Seq<(Seq<char>, Seq<char>)>,
    headers: Seq<(Seq<char>, Seq<char>)>,
    signed: Seq<SignedHeader>,
    body_hash: Seq<char>,
    access_key: Seq<char>,
    secret_key: Seq<char>,
    amz_date: Seq<char>,
    date: Seq<char>,
    region: Seq<char>,
    now: int,
    sig: Seq<char>,
)
    requires
        path.len() > 0 && path[0] == '/',
        forall|i: int| 0 <= i < sent.len() ==> sendable(#[trigger] sent[i]),
        sent_query(sent).len() <= usize::MAX,
        in_signing_order(sorted),
        sorted.to_multiset() == sent_pairs(sent).to_multiset(),
        signed.len() > 0,
        signed_names(signed).len() <= usize::MAX,
        forall|i: int| 0 <= i < signed.len() ==> carried(headers, #[trigger] signed[i]),
        split::free_of(access_key, '/') && split::free_of(access_key, ','),
        split::free_of(date, '/') && split::free_of(date, ','),
        split::free_of(region, '/') && split::free_of(region, ','),
        split::free_of(sig, ','),
        access_key.len() + date.len() + region.len() <= usize::MAX,
        carries(headers, "x-amz-date"@, amz_date),
        auth::amz_seconds(amz_date) matches Some(t) ==> t - 900 <= now <= t + 900,
    ensures
        auth::refusal(
            method,
            path,
            sent_query(sent),
            headers,
            body_hash,
            auth_laws::authorization(access_key, date, region, signed_names(signed), sig),
            access_key,
            secret_key,
            now,
        ) is None <==> sig == client_signature(
            secret_key,
            amz_date,
            date,
            region,
            method,
            path,
            sorted,
            signed,
            body_hash,
        ),
{
    lemma_signed_headers(headers, signed);
    lemma_carries(headers, "x-amz-date"@, amz_date);
    law_signed_query_is_spelled_out(sent, sorted);
    lemma_signature(
        secret_key,
        amz_date,
        date,
        region,
        method,
        path,
        sorted,
        signed,
        body_hash,
    );
    auth_laws::lemma_authorization(access_key, date, region, signed_names(signed), sig);
}

/// A request with another access key is refused, whatever it carries; so is one that was sent
/// more than a quarter of an hour away from the server's clock.
pub proof fn law_strangers_and_stale_requests_are_refused(
    method: Seq<char>,
    path: Seq<char>,
    query: Seq<char>,
    headers: Seq<(Seq<char>, Seq<char>)>,
    names: Seq<char>,
    body_hash: Seq<char>,
    key: Seq<char>,
    access_key: Seq<char>,
    secret_key: Seq<char>,
    amz_date: Seq<char>,
    date: Seq<char>,
    region: Seq<char>,
    now: int,
    sig: Seq<char>,
)
    requires
        split::free_of(key, '/') && split::free_of(key, ','),
        split::free_of(date, '/') && split::free_of(date, ','),
        split::free_of(region, '/') && split::free_of(region, ','),
        split::free_of(names, ',') && split::free_of(sig, ','),
        key.len() + date.len() + region.len() <= usize::MAX,
        key != access_key || (carries(headers, "x-amz-date"@, amz_date) && auth::amz_seconds(
            amz_date,
        ) is Some && (auth::amz_seconds(amz_date)->0 + 900 < now || now + 900 < auth::amz_seconds(
            amz_date,
        )->0)),
    ensures
        auth::refusal(
            method,
            path,
            query,
            headers,
            body_hash,
            auth_laws::authorization(key, date, region, names, sig),
            access_key,
            secret_key,
            now,
        ) is Some,
{
    auth_laws::lemma_authorization(key, date, region, names, sig);
    if key == access_key {
        lemma_carries(headers, "x-amz-date"@, amz_date);
    }
}

// -------------------------------------------------------------------- dates

/// Two digits of a number below a hundred.
pub open spec fn two_digits(n: int) -> Seq<char> {
    seq![(48 + n / 10) as char, (48 + n % 10) as char]
}

/// Four digits of a number below ten thousand.
pub open spec fn four_digits(n: int) -> Seq<char> {
    seq![
        (48 + n / 1000) as char,
        (48 + n / 100 % 10) as char,
        (48 + n / 10 % 10) as char,
        (48 + n % 10) as char,
    ]
}

proof fn lemma_two(n: int)
    requires
        0 <= n < 100,
    ensures
        text::u64_value(two_digits(n)) == Some(n as u64),
{
    let s = two_digits(n);
    reveal_with_fuel(text::digits_value, 4);
    assert(s.drop_last() =~= seq![s[0]]);
    assert(s.drop_last().drop_last() =~= Seq::<char>::empty());
    assert(text::all_digits(s));
    assert(text::digits_value(s) == n);
}

proof fn lemma_four(n: int)
    requires
        0 <= n < 10_000,
    ensures
        text::u64_value(four_digits(n)) == Some(n as u64),
{
    let s = four_digits(n);
    reveal_with_fuel(text::digits_value, 6);
    assert(s.drop_last() =~= seq![s[0], s[1], s[2]]);
    assert(s.drop_last().drop_last() =~= seq![s[0], s[1]]);
    assert(s.drop_last().drop_last().drop_last() =~= seq![s[0]]);
    assert(s.drop_last().drop_last().drop_last().drop_last() =~= Seq::<char>::empty());
    assert(text::all_digits(s));
    assert(text::digits_value(s) == n);
}

/// The date of a request is read as the moment that it states: the day of the calendar, and
/// the hour, minute and second of that day.
pub proof fn law_request_dates_are_read(
    d: super::dates::Date,
    hour: int,
    minute: int,
    second: int,
)
    requires
        super::dates::valid(d),
        1970 <= d.year < 10_000,
        0 <= hour < 100,
        0 <= minute < 100,
        0 <= second < 100,
    ensures
        auth::amz_seconds(
            four_digits(d.year) + two_digits(d.month + 1) + two_digits(d.day) + seq!['T']
                + two_digits(hour) + two_digits(minute) + two_digits(second) + seq!['Z'],
        ) == Some(
            super::dates::day_number(d) * 86_400 + hour * 3_600 + minute * 60 + second,
        ),
{
    auth_laws::law_signed_dates_are_calendar_dates(d);
    let s = four_digits(d.year) + two_digits(d.month + 1) + two_digits(d.day) + seq!['T']
        + two_digits(hour) + two_digits(minute) + two_digits(second) + seq!['Z'];
    assert(s.len() == 16);
    assert(s.subrange(0, 4) =~= four_digits(d.year));
    assert(s.subrange(4, 6) =~= two_digits(d.month + 1));
    assert(s.subrange(6, 8) =~= two_digits(d.day));
    assert(s.subrange(9, 11) =~= two_digits(hour));
    assert(s.subrange(11, 13) =~= two_digits(minute));
    assert(s.subrange(13, 15) =~= two_digits(second));
    lemma_four(d.year);
    lemma_two(d.month + 1);
    lemma_two(d.day);
    lemma_two(hour);
    lemma_two(minute);
    lemma_two(second);
    assert(is_ascii_chars(s)) by {
        assert forall|i: int| 0 <= i < s.len() implies (#[trigger] s[i]) as u32 <= 127 by {}
    }
}

// -------------------------------------------------------------- presigned URLs

/// No parameter is sent twice, and no name needs decoding.
pub open spec fn plainly_named(sent: Seq<Sent>) -> bool {
    &&& forall|i: int|
        0 <= i < sent.len() ==> sendable(#[trigger] sent[i]) && auth::percent_decoded(sent[i].name)
            == sent[i].name
    &&& forall|i: int, j: int|
        #![trigger sent[i], sent[j]]
        0 <= i < j < sent.len() ==> sent[i].name != sent[j].name
}

/// A parameter is sent with a value, in whatever encoding.
pub open spec fn sends(sent: Seq<Sent>, name: Seq<char>, value: Seq<char>) -> bool {
    exists|i: int|
        0 <= i < sent.len() && (#[trigger] sent[i]).name == name && !sent[i].bare
            && auth::percent_decoded(sent[i].value) == value
}

proof fn lemma_decoded(sent: Seq<Sent>, parts: Seq<Seq<char>>, n: nat, i: int)
    requires
        plainly_named(sent),
        sent_query(sent).len() <= usize::MAX,
        parts.len() == sent.len(),
        n <= parts.len(),
        forall|k: int| 0 <= k < parts.len() ==> #[trigger] parts[k] == sent_piece(sent[k]),
        0 <= i < n,
        !sent[i].bare,
    ensures
        ({
            let m = query::by_name(auth::decoded_pieces(parts.take(n as int)));
            m.contains_key(sent[i].name) && m[sent[i].name] == auth::percent_decoded(sent[i].value)
        }),
    decreases n,
{
    let now = parts.take(n as int);
    let d = now.drop_last();
    assert(d =~= parts.take(n - 1));
    assert(now.last() == parts[n - 1]);
    let p = sent[n - 1];
    assert(sendable(sent[n - 1]));
    lemma_short(sent, n - 1);
    lemma_piece(p);
    let before = auth::decoded_pieces(d);
    let after = auth::decoded_pieces(now);
    if p.bare {
        split::lemma_split_nowhere(p.name, '=');
        lemma_decoded(sent, parts, (n - 1) as nat, i);
    } else {
        split::lemma_split_at(p.name, '=', p.value);
        assert(after == before.push((p.name, auth::percent_decoded(p.value))));
        assert(after.drop_last() =~= before);
        if i < n - 1 {
            assert(sent[i].name != sent[n - 1].name);
            lemma_decoded(sent, parts, (n - 1) as nat, i);
        }
    }
}

proof fn lemma_sends(sent: Seq<Sent>, name: Seq<char>, value: Seq<char>)
    requires
        plainly_named(sent),
        sent_query(sent).len() <= usize::MAX,
        sends(sent, name, value),
    ensures
        ({
            let m = query::by_name(auth::decoded_parameters(sent_query(sent)));
            m.contains_key(name) && m[name] == value
        }),
{
    let i = choose|i: int|
        0 <= i < sent.len() && (#[trigger] sent[i]).name == name && !sent[i].bare
            && auth::percent_decoded(sent[i].value) == value;
    assert forall|k: int| 0 <= k < sent.len() implies sendable(#[trigger] sent[k]) by {}
    lemma_sent(sent);
    let parts = split::pieces(sent_query(sent), '&');
    lemma_decoded(sent, parts, sent.len(), i);
    assert(parts.take(sent.len() as int) =~= parts);
}

/// The parameters that are signed: all but the signature.
pub open spec fn unsigned_pairs(sent: Seq<Sent>) -> Seq<(Seq<char>, Seq<char>)> {
    all_but(sent_pairs(sent), "X-Amz-Signature"@)
}

/// The pairs but for those with a name.
pub open spec fn all_but(pairs: Seq<(Seq<char>, Seq<char>)>, name: Seq<char>) -> Seq<
    (Seq<char>, Seq<char>),
> {
    pairs.filter(|p: (Seq<char>, Seq<char>)| p.0 != name)
}

proof fn lemma_without(pairs: Seq<(Seq<char>, Seq<char>)>, name: Seq<char>)
    ensures
        auth::without(pairs, name) == all_but(pairs, name),
    decreases pairs.len(),
{
    reveal(Seq::filter);
    if pairs.len() > 0 {
        lemma_without(pairs.drop_last(), name);
    }
}

proof fn lemma_presigned_query(sent: Seq<Sent>, sorted: Seq<(Seq<char>, Seq<char>)>)
    requires
        sent.len() > 0,
        plainly_named(sent),
        sent_query(sent).len() <= usize::MAX,
        in_signing_order(sorted),
        sorted.to_multiset() == unsigned_pairs(sent).to_multiset(),
    ensures
        auth::presigned_query_text(sent_query(sent)) == signed_query(sorted),
{
    assert forall|k: int| 0 <= k < sent.len() implies sendable(#[trigger] sent[k]) by {}
    lemma_sent(sent);
    lemma_without(sent_pairs(sent), "X-Amz-Signature"@);
    lemma_ordered(unsigned_pairs(sent), sorted);
    lemma_written(sorted);
}

proof fn lemma_signed_headers(headers: Seq<(Seq<char>, Seq<char>)>, signed: Seq<SignedHeader>)
    requires
        signed.len() > 0,
        signed_names(signed).len() <= usize::MAX,
        forall|i: int| 0 <= i < signed.len() ==> carried(headers, #[trigger] signed[i]),
    ensures
        auth::canonical_headers(headers, split::pieces(signed_names(signed), ';'))
            == signed_lines(signed),
        split::free_of(signed_names(signed), ','),
{
    assert forall|i: int| 0 <= i < signed.len() implies split::free_of(
        (#[trigger] signed[i]).name,
        ';',
    ) && split::free_of(signed[i].name, ',') by {
        assert(carried(headers, signed[i]));
    }
    lemma_names(signed);
    lemma_lines(headers, signed);
}

/// A presigned URL with the server's access key that is neither early nor expired is accepted
/// exactly where it carries the signature that a client with the server's secret key makes
/// over all of its parameters but the signature itself, and over its headers; its body is not
/// signed.
#[verifier::rlimit(60)]
pub proof fn law_exactly_the_presigned_signature_is_accepted(
    method: Seq<char>,
    path: Seq<char>,
    sent: Seq<Sent>,
    sorted: Seq<(Seq<char>, Seq<char>)>,
    headers: Seq<(Seq<char>, Seq<char>)>,
    signed: Seq<SignedHeader>,
    access_key: Seq<char>,
    secret_key: Seq<char>,
    amz_date: Seq<char>,
    date: Seq<char>,
    region: Seq<char>,
    expires: u64,
    now: int,
    sig: Seq<char>,
)
    requires
        path.len() > 0 && path[0] == '/',
        plainly_named(sent),
        sent_query(sent).len() <= usize::MAX,
        in_signing_order(sorted),
        sorted.to_multiset() == unsigned_pairs(sent).to_multiset(),
        signed.len() > 0,
        signed_names(signed).len() <= usize::MAX,
        forall|i: int| 0 <= i < signed.len() ==> carried(headers, #[trigger] signed[i]),
        split::free_of(access_key, '/') && split::free_of(date, '/') && split::free_of(
            region,
            '/',
        ),
        access_key.len() + date.len() + region.len() <= usize::MAX,
        sends(sent, "X-Amz-Algorithm"@, "AWS4-HMAC-SHA256"@),
        sends(
            sent,
            "X-Amz-Credential"@,
            access_key + seq!['/'] + date + seq!['/'] + region + seq!['/'] + "s3"@ + seq!['/']
                + "aws4_request"@,
        ),
        sends(sent, "X-Amz-Date"@, amz_date),
        sends(sent, "X-Amz-Expires"@, text::decimal(expires as nat)),
        sends(sent, "X-Amz-SignedHeaders"@, signed_names(signed)),
        sends(sent, "X-Amz-Signature"@, sig),
        expires <= 604_800,
        auth::amz_seconds(amz_date) matches Some(t) && t - 900 <= now <= t + expires,
    ensures
        auth::presigned_refusal(
            method,
            path,
            sent_query(sent),
            headers,
            access_key,
            secret_key,
            now,
        ) is None <==> sig == client_signature(
            secret_key,
            amz_date,
            date,
            region,
            method,
            path,
            sorted,
            signed,
            "UNSIGNED-PAYLOAD"@,
        ),
{
    lemma_signed_headers(headers, signed);
    lemma_presigned_parameters(
        sent,
        access_key,
        amz_date,
        date,
        region,
        expires,
        signed_names(signed),
        sig,
    );
    lemma_presigned_query(sent, sorted);
    lemma_signature(
        secret_key,
        amz_date,
        date,
        region,
        method,
        path,
        sorted,
        signed,
        "UNSIGNED-PAYLOAD"@,
    );
    text::lemma_u64_round_trip(expires);
}

proof fn lemma_presigned_parameters(
    sent: Seq<Sent>,
    access_key: Seq<char>,
    amz_date: Seq<char>,
    date: Seq<char>,
    region: Seq<char>,
    expires: u64,
    names: Seq<char>,
    sig: Seq<char>,
)
    requires
        plainly_named(sent),
        sent_query(sent).len() <= usize::MAX,
        split::free_of(access_key, '/') && split::free_of(date, '/') && split::free_of(
            region,
            '/',
        ),
        access_key.len() + date.len() + region.len() <= usize::MAX,
        sends(sent, "X-Amz-Algorithm"@, "AWS4-HMAC-SHA256"@),
        sends(
            sent,
            "X-Amz-Credential"@,
            access_key + seq!['/'] + date + seq!['/'] + region + seq!['/'] + "s3"@ + seq!['/']
                + "aws4_request"@,
        ),
        sends(sent, "X-Amz-Date"@, amz_date),
        sends(sent, "X-Amz-Expires"@, text::decimal(expires as nat)),
        sends(sent, "X-Amz-SignedHeaders"@, names),
        sends(sent, "X-Amz-Signature"@, sig),
    ensures
        ({
            let m = query::by_name(auth::decoded_parameters(sent_query(sent)));
            let credential = split::pieces(m["X-Amz-Credential"@], '/');
            &&& m.contains_key("X-Amz-Algorithm"@) && m["X-Amz-Algorithm"@]
                == "AWS4-HMAC-SHA256"@
            &&& m.contains_key("X-Amz-Credential"@)
            &&& m.contains_key("X-Amz-Date"@) && m["X-Amz-Date"@] == amz_date
            &&& m.contains_key("X-Amz-Expires"@) && m["X-Amz-Expires"@] == text::decimal(
                expires as nat,
            )
            &&& m.contains_key("X-Amz-SignedHeaders"@) && m["X-Amz-SignedHeaders"@] == names
            &&& m.contains_key("X-Amz-Signature"@) && m["X-Amz-Signature"@] == sig
            &&& credential.len() == 5
            &&& credential[0] == access_key
            &&& credential[1] == date
            &&& credential[2] == region
        }),
{
    let whole = access_key + seq!['/'] + date + seq!['/'] + region + seq!['/'] + "s3"@ + seq!['/']
        + "aws4_request"@;
    lemma_sends(sent, "X-Amz-Algorithm"@, "AWS4-HMAC-SHA256"@);
    lemma_sends(sent, "X-Amz-Credential"@, whole);
    lemma_sends(sent, "X-Amz-Date"@, amz_date);
    lemma_sends(sent, "X-Amz-Expires"@, text::decimal(expires as nat));
    lemma_sends(sent, "X-Amz-SignedHeaders"@, names);
    lemma_sends(sent, "X-Amz-Signature"@, sig);
    let last = "s3"@ + seq!['/'] + "aws4_request"@;
    let three = region + seq!['/'] + last;
    let two = date + seq!['/'] + three;
    assert(whole =~= access_key + seq!['/'] + two);
    split::lemma_split_at(access_key, '/', two);
    split::lemma_split_at(date, '/', three);
    split::lemma_split_at(region, '/', last);
    assert(split::free_of("s3"@, '/') && split::free_of("aws4_request"@, '/')
        && "s3"@.len() == 2) by {
        reveal_strlit("s3");
        reveal_strlit("aws4_request");
    }
    split::lemma_split_at("s3"@, '/', "aws4_request"@);
    split::lemma_split_nowhere("aws4_request"@, '/');
}

/// A presigned URL is refused before a quarter of an hour ahead of its date, after the seconds
/// that it states, where it states more than seven days, and with another access key.
pub proof fn law_presigned_url_out_of_time_is_refused(
    method: Seq<char>,
    path: Seq<char>,
    sent: Seq<Sent>,
    headers: Seq<(Seq<char>, Seq<char>)>,
    key: Seq<char>,
    access_key: Seq<char>,
    secret_key: Seq<char>,
    amz_date: Seq<char>,
    date: Seq<char>,
    region: Seq<char>,
    expires: u64,
    names: Seq<char>,
    sig: Seq<char>,
    now: int,
)
    requires
        plainly_named(sent),
        sent_query(sent).len() <= usize::MAX,
        split::free_of(key, '/') && split::free_of(date, '/') && split::free_of(region, '/'),
        key.len() + date.len() + region.len() <= usize::MAX,
        sends(sent, "X-Amz-Algorithm"@, "AWS4-HMAC-SHA256"@),
        sends(
            sent,
            "X-Amz-Credential"@,
            key + seq!['/'] + date + seq!['/'] + region + seq!['/'] + "s3"@ + seq!['/']
                + "aws4_request"@,
        ),
        sends(sent, "X-Amz-Date"@, amz_date),
        sends(sent, "X-Amz-Expires"@, text::decimal(expires as nat)),
        sends(sent, "X-Amz-SignedHeaders"@, names),
        sends(sent, "X-Amz-Signature"@, sig),
        key != access_key || expires > 604_800 || !(auth::amz_seconds(amz_date) matches Some(t) && t
            - 900 <= now <= t + expires),
    ensures
        auth::presigned_refusal(
            method,
            path,
            sent_query(sent),
            headers,
            access_key,
            secret_key,
            now,
        ) is Some,
{
    lemma_presigned_parameters(sent, key, amz_date, date, region, expires, names, sig);
    text::lemma_u64_round_trip(expires);
}

/// The hexadecimal digits of a byte, in capital letters.
pub open spec fn hex_digit_of(n: int) -> u8 {
    if n < 10 {
        (48 + n) as u8
    } else {
        (55 + n) as u8
    }
}

/// Bytes as a client sends them: each as it stands, or as a percent sign and two digits.
pub open spec fn sent_bytes(bytes: Seq<u8>, escaped: Seq<bool>) -> Seq<u8>
    decreases bytes.len(),
{
    if bytes.len() == 0 {
        Seq::empty()
    } else {
        (if escaped[0] {
            seq![
                37u8,
                hex_digit_of(bytes[0] as int / 16),
                hex_digit_of(bytes[0] as int % 16),
            ]
        } else {
            seq![bytes[0]]
        }) + sent_bytes(bytes.drop_first(), escaped.drop_first())
    }
}

proof fn lemma_unescaped(bytes: Seq<u8>, escaped: Seq<bool>)
    requires
        bytes.len() == escaped.len(),
        forall|i: int| 0 <= i < bytes.len() && #[trigger] bytes[i] == 37 ==> escaped[i],
    ensures
        auth::unescaped(sent_bytes(bytes, escaped)) == bytes,
    decreases bytes.len(),
{
    if bytes.len() > 0 {
        let rest = sent_bytes(bytes.drop_first(), escaped.drop_first());
        let all = sent_bytes(bytes, escaped);
        assert forall|i: int|
            0 <= i < bytes.drop_first().len() && #[trigger] bytes.drop_first()[i]
                == 37 implies escaped.drop_first()[i] by {
            assert(bytes[i + 1] == 37);
        }
        lemma_unescaped(bytes.drop_first(), escaped.drop_first());
        if escaped[0] {
            let a = hex_digit_of(bytes[0] as int / 16);
            let b = hex_digit_of(bytes[0] as int % 16);
            assert(all[0] == 37 && all[1] == a && all[2] == b);
            assert(auth::escaped_byte(a, b) == Some(bytes[0]));
            assert(all.skip(3) =~= rest);
        } else {
            assert(bytes[0] != 37);
            assert(all[0] == bytes[0]);
            assert(all.skip(1) =~= rest);
        }
        assert(seq![bytes[0]] + bytes.drop_first() =~= bytes);
    } else {
        assert(auth::unescaped(sent_bytes(bytes, escaped)) =~= bytes);
    }
}

/// What a client encodes is decoded to what it was: whichever bytes of a text it writes as
/// percent signs and digits, the text comes back, as long as it does so with every percent
/// sign.
pub proof fn law_encoding_is_undone(s: Seq<char>, text: Seq<char>, escaped: Seq<bool>)
    requires
        encode_utf8(s).len() == escaped.len(),
        forall|i: int|
            0 <= i < encode_utf8(s).len() && #[trigger] encode_utf8(s)[i] == 37 ==> escaped[i],
        encode_utf8(text) == sent_bytes(encode_utf8(s), escaped),
    ensures
        auth::percent_decoded(text) == s,
{
    lemma_unescaped(encode_utf8(s), escaped);
    encode_utf8_valid_utf8(s);
    encode_utf8_decode_utf8(s);
}

/// Small letters are hexadecimal digits as well as capital ones; anything else is none.
pub proof fn law_small_letters_are_digits_too(b: u8)
    ensures
        97 <= b <= 102 ==> auth::hex_value(b) == auth::hex_value((b - 32) as u8),
        65 <= b <= 70 ==> auth::hex_value(b) == Some((b - 55) as u8),
        48 <= b <= 57 ==> auth::hex_value(b) == Some((b - 48) as u8),
        b < 48 || (57 < b < 65) || (70 < b < 97) || 102 < b ==> auth::hex_value(b) is None,
{
}

} // verus!

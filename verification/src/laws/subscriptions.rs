//! Subscriptions: their quotas, their names, and the nodes that an import keeps.

use crate::domain::node::ProxyNode;
use crate::domain::subscription::{
    after_at, at_least_one, completed, first_line, host_end, last_part, masked_uri, masked_url,
    merged, no_traffic, shortened, SourceModel, Subscription, SubscriptionTraffic,
    SubscriptionView,
};
use crate::error::ErrorModel;
use crate::json::{text_field, JsonModel};
use crate::services::disposition::{base_name, without_extension};
use crate::services::exit_ip::answer_of;
use crate::services::import::{
    distinct_nodes, file_label, holds_instance, id_text, import_id, name_or, node_label,
    text_refused, url_refused,
};
use crate::services::quota::{
    after_sign, count_of, header_userinfo, key_value, moment_of, named_userinfo, noted,
    number_char, number_end, size_written, unit_power, unlimited, with_part, FloatReading, Header,
    Remark, TrafficModel,
};
use crate::text::{
    all_digits, digits_value, first_at, has_prefix, has_suffix, is_space, lemma_ascii_cut,
    lemma_find_pos, lemma_trimmed_same, lowered, occurs_at, parsed_int, trimmed, without_char,
};
use crate::web::{canonical_url, url_parsed, UrlModel};
use vstd::prelude::*;
use vstd::utf8::{encode_utf8, is_ascii_chars};

verus! {

// ---------------------------------------------------------------------------
// Quotas
// ---------------------------------------------------------------------------
/// What a source says comes before what the next one says, field by field, and what neither
/// says is not known.
pub proof fn law_first_source_wins(a: SubscriptionTraffic, b: SubscriptionTraffic)
    ensures
        ({
            let m = completed(a, b);
            &&& a.upload is Some ==> m.upload == a.upload
            &&& a.upload is None ==> m.upload == b.upload
            &&& a.download is Some ==> m.download == a.download
            &&& a.download is None ==> m.download == b.download
            &&& a.total is Some ==> m.total == a.total
            &&& a.total is None ==> m.total == b.total
            &&& a.quota_remaining is Some ==> m.quota_remaining == a.quota_remaining
            &&& a.quota_remaining is None ==> m.quota_remaining == b.quota_remaining
            &&& a.expire is Some ==> m.expire == a.expire
            &&& a.expire is None ==> m.expire == b.expire
            &&& a.expire_text is Some ==> m.expire_text == a.expire_text
            &&& a.expire_text is None ==> m.expire_text == b.expire_text
            &&& merged(Some(a), Some(b)) is Some ==> merged(Some(a), Some(b)) == Some(m)
        }),
        merged(None, None) is None,
        a.upload is Some || a.download is Some || a.total is Some || a.quota_remaining is Some
            || a.expire is Some || a.expire_text is Some ==> merged(Some(a), None) == Some(a)
            && merged(None, Some(a)) == Some(a),
        merged(Some(no_traffic()), None) is None,
{
}

/// The bytes used are those up and those down together.
pub proof fn law_used_is_both_ways(t: SubscriptionTraffic, up: u64, down: u64)
    ensures
        t.upload == Some(up) && t.download == Some(down) && up + down <= u64::MAX
            ==> t.used_bytes() == up + down,
        t.upload == Some(up) && t.download is None ==> t.used_bytes() == up,
        t.upload is None && t.download == Some(down) ==> t.used_bytes() == down,
        t.upload is None && t.download is None ==> t.used_bytes() == 0,
        0 <= t.used_bytes() <= u64::MAX,
{
}

/// A notice adds what was not known, to the field that it is about, and changes nothing else.
pub proof fn law_notices_add_what_is_unknown(t: TrafficModel, n: u64, ts: i64, text: Seq<char>)
    ensures
        noted(t, Remark::Nothing) == t,
        ({
            let m = noted(t, Remark::Left(n));
            &&& t.quota_remaining is None ==> m.quota_remaining == Some(n)
            &&& t.quota_remaining is Some ==> m.quota_remaining == t.quota_remaining
            &&& m.upload == t.upload && m.download == t.download && m.total == t.total && m.expire
                == t.expire && m.expire_text == t.expire_text
        }),
        ({
            let m = noted(t, Remark::Used(n));
            &&& t.download is None && t.upload is None ==> m.download == Some(n)
            &&& t.download is Some || t.upload is Some ==> m.download == t.download
            &&& m.upload == t.upload && m.total == t.total && m.quota_remaining
                == t.quota_remaining && m.expire == t.expire && m.expire_text == t.expire_text
        }),
        ({
            let m = noted(t, Remark::Total(n));
            &&& t.total is None ==> m.total == Some(n)
            &&& t.total is Some ==> m.total == t.total
            &&& m.upload == t.upload && m.download == t.download && m.quota_remaining
                == t.quota_remaining && m.expire == t.expire && m.expire_text == t.expire_text
        }),
        ({
            let m = noted(t, Remark::Ends(ts));
            &&& t.expire is None ==> m.expire == Some(ts)
            &&& t.expire is Some ==> m.expire == t.expire
            &&& m.upload == t.upload && m.download == t.download && m.total == t.total
                && m.quota_remaining == t.quota_remaining && m.expire_text == t.expire_text
        }),
        ({
            let m = noted(t, Remark::EndsAs(text));
            &&& t.expire_text is None ==> m.expire_text == Some(text)
            &&& t.expire_text is Some ==> m.expire_text == t.expire_text
            &&& m.expire == t.expire && m.total == t.total && m.upload == t.upload && m.download
                == t.download && m.quota_remaining == t.quota_remaining
        }),
        ({
            let m = noted(t, Remark::English { left: Some(n), ends: Some(text) });
            &&& t.quota_remaining is None ==> m.quota_remaining == Some(n)
            &&& t.quota_remaining is Some ==> m.quota_remaining == t.quota_remaining
            &&& t.expire_text is None ==> m.expire_text == Some(text)
            &&& t.expire_text is Some ==> m.expire_text == t.expire_text
            &&& m.expire == t.expire && m.total == t.total && m.upload == t.upload && m.download
                == t.download
        }),
{
}

/// A part `key=value` of a quota is read into the field of its key, and into no other.
pub proof fn law_parts_are_read_by_their_key(
    t: SubscriptionTraffic,
    part: Seq<char>,
    val: Seq<char>,
    floats: Seq<(String, FloatReading)>,
)
    ensures
        ({
            let m = with_part(t, part, floats);
            &&& key_value(part) == Some(("upload"@, val)) ==> m == (SubscriptionTraffic {
                upload: count_of(val, floats),
                ..t
            })
            &&& key_value(part) == Some(("download"@, val)) ==> m == (SubscriptionTraffic {
                download: count_of(val, floats),
                ..t
            })
            &&& key_value(part) == Some(("total"@, val)) ==> m == (SubscriptionTraffic {
                total: count_of(val, floats),
                ..t
            })
            &&& key_value(part) == Some(("expire"@, val)) ==> m == (SubscriptionTraffic {
                expire: moment_of(val, floats),
                ..t
            })
            &&& key_value(part) is None ==> m == t
            &&& m.quota_remaining == t.quota_remaining && m.expire_text == t.expire_text
        }),
{
    reveal_strlit("upload");
    reveal_strlit("download");
    reveal_strlit("total");
    reveal_strlit("expire");
    assert("upload"@.len() == 6 && "download"@.len() == 8 && "total"@.len() == 5 && "expire"@.len()
        == 6);
    assert("upload"@[0] == 'u' && "expire"@[0] == 'e');
}

/// A count that is written in digits is that number.
pub proof fn law_counts_are_numbers(val: Seq<char>, floats: Seq<(String, FloatReading)>)
    requires
        val.len() > 0,
        all_digits(val),
    ensures
        digits_value(val) <= u64::MAX ==> count_of(val, floats) == Some(digits_value(val) as u64),
        digits_value(val) <= i64::MAX ==> moment_of(val, floats) == Some(digits_value(val) as i64),
{
    assert(crate::text::is_digit(val[0]));
    assert(parsed_int(val) == Some(digits_value(val) as int));
}

/// The header of the usual name comes before those of other names.
pub proof fn law_usual_header_comes_first(
    headers: Seq<Header>,
    floats: Seq<(String, FloatReading)>,
)
    ensures
        named_userinfo(headers, "subscription-userinfo"@, floats) is Some ==> header_userinfo(
            headers,
            floats,
        ) == named_userinfo(headers, "subscription-userinfo"@, floats),
        named_userinfo(headers, "subscription-userinfo"@, floats) is None && named_userinfo(
            headers,
            "x-subscription-userinfo"@,
            floats,
        ) is Some ==> header_userinfo(headers, floats) == named_userinfo(
            headers,
            "x-subscription-userinfo"@,
            floats,
        ),
{
}

/// A unit counts by its first letter: bytes, then kilo, mega, giga, tera and peta, each 1024
/// of the one before.
pub proof fn law_units_count_by_their_letter(unit: Seq<char>)
    ensures
        unit_power(unit) matches Some(p) ==> {
            &&& p == 0 <==> unit.len() == 0 || unit[0] == 'b'
            &&& p == 1 <==> unit.len() > 0 && unit[0] == 'k'
            &&& p == 2 <==> unit.len() > 0 && unit[0] == 'm'
            &&& p == 3 <==> unit.len() > 0 && unit[0] == 'g'
            &&& p == 4 <==> unit.len() > 0 && unit[0] == 't'
            &&& p == 5 <==> unit.len() > 0 && unit[0] == 'p'
            &&& p <= 5
        },
        unit_power("kb"@) is Some && unit_power("mb"@) is Some && unit_power("gb"@) is Some,
        unit_power("tb"@) is Some && unit_power("pb"@) is Some && unit_power("b"@) is Some,
        unit_power("kib"@) is Some && unit_power("mib"@) is Some && unit_power("gib"@) is Some,
        unit_power("tib"@) is Some && unit_power("pib"@) is Some && unit_power("bytes"@) is Some,
        unit_power("k"@) is Some && unit_power("m"@) is Some && unit_power("g"@) is Some,
        unit_power("t"@) is Some && unit_power("p"@) is Some && unit_power("byte"@) is Some,
{
    reveal_strlit("b");
    reveal_strlit("byte");
    reveal_strlit("bytes");
    reveal_strlit("k");
    reveal_strlit("kb");
    reveal_strlit("kib");
    reveal_strlit("m");
    reveal_strlit("mb");
    reveal_strlit("mib");
    reveal_strlit("g");
    reveal_strlit("gb");
    reveal_strlit("gib");
    reveal_strlit("t");
    reveal_strlit("tb");
    reveal_strlit("tib");
    reveal_strlit("p");
    reveal_strlit("pb");
    reveal_strlit("pib");
}

proof fn lemma_number_front(s: Seq<char>)
    ensures
        0 <= number_end(s) <= s.len(),
        forall|i: int| 0 <= i < number_end(s) ==> number_char(#[trigger] s[i]),
        number_end(s) < s.len() ==> !number_char(s[number_end(s)]),
    decreases s.len(),
{
    if s.len() > 0 && number_char(s[0]) {
        let t = s.drop_first();
        lemma_number_front(t);
        assert forall|i: int| 0 <= i < number_end(s) implies number_char(#[trigger] s[i]) by {
            if i > 0 {
                assert(t[i - 1] == s[i]);
            }
        }
        if number_end(s) < s.len() {
            assert(t[number_end(t)] == s[number_end(s)]);
        }
    }
}

/// A size is the longest number in front and a unit behind it; a sign and commas do not count,
/// and what says that there is no limit is no size.
pub proof fn law_sizes_are_a_number_and_a_unit(s: Seq<char>)
    ensures
        ({
            let t = without_char(trimmed(s), ',');
            let n = after_sign(t);
            &&& unlimited(t) ==> size_written(s) is None
            &&& t.len() == 0 ==> size_written(s) is None
            &&& size_written(s) matches Some((num, p)) ==> {
                &&& 0 < num.len() <= n.len()
                &&& num == n.take(num.len() as int)
                &&& forall|i: int|
                    0 <= i < num.len() ==> '0' <= #[trigger] num[i] <= '9' || num[i] == '.'
                &&& num.len() < n.len() ==> !('0' <= n[num.len() as int] <= '9') && n[num.len() as int]
                    != '.'
                &&& unit_power(
                    without_char(lowered(trimmed(n.skip(num.len() as int))), ' '),
                ) == Some(p)
            }
        }),
{
    let n = after_sign(without_char(trimmed(s), ','));
    lemma_number_front(n);
    if let Some((num, p)) = size_written(s) {
        assert forall|i: int| 0 <= i < num.len() implies '0' <= #[trigger] num[i] <= '9' || num[i]
            == '.' by {
            assert(number_char(n[i]));
        }
    }
}

/// A subscription is without limit where it says so, in either tongue.
pub proof fn law_no_limit_is_said(s: Seq<char>)
    ensures
        trimmed(s) == "∞"@ || trimmed(s) == "无限"@ || trimmed(s) == "无限制"@ ==> unlimited(s),
        lowered(trimmed(s)) == "unlimited"@ ==> unlimited(s),
        unlimited(s) && trimmed(s).len() > 3 ==> lowered(trimmed(s)) == lowered("unlimited"@),
{
    reveal_strlit("unlimited");
    reveal_strlit("∞");
    reveal_strlit("无限");
    reveal_strlit("无限制");
    assert(lowered("unlimited"@) =~= "unlimited"@);
    assert("∞"@.len() == 1 && "无限"@.len() == 2 && "无限制"@.len() == 3);
}

// ---------------------------------------------------------------------------
// Names
// ---------------------------------------------------------------------------
/// A name that was given is taken, without the white space around it; else the default is.
pub proof fn law_given_names_are_taken(name: Option<String>, stem: Option<String>, default: Seq<char>, nodes: Seq<ProxyNode>)
    ensures
        name is Some && trimmed(name->0@).len() > 0 ==> name_or(name, default) == trimmed(name->0@)
            && file_label(name, stem) == trimmed(name->0@) && node_label(name, nodes) == trimmed(
            name->0@,
        ),
        name is None || trimmed(name->0@).len() == 0 ==> name_or(name, default) == default,
        name is None && stem is Some && trimmed(stem->0@).len() > 0 ==> file_label(name, stem)
            == trimmed(stem->0@),
        name is None && nodes.len() > 0 ==> node_label(name, nodes) == nodes[0].name@,
        file_label(name, stem).len() > 0,
{
    reveal_strlit("Local config");
    reveal_strlit("多节点");
    assert("多节点"@.len() == 3);
    if name is Some {
        crate::text::lemma_trimmed_twice(name->0@);
    }
}

/// A URL is fetched where it is one of the web, whatever white space is around it.
pub proof fn law_only_web_addresses_are_fetched(url: Seq<char>)
    ensures
        url_refused(url) is None <==> has_prefix(trimmed(url), "http://"@) || has_prefix(
            trimmed(url),
            "https://"@,
        ),
        url_refused(url) is Some ==> url_refused(url)->0 is Fetch,
{
    reveal_strlit("http://");
    reveal_strlit("https://");
    assert("http://"@.len() == 7 && "https://"@.len() == 8);
}

/// A pasted text is taken where it says anything and has at most eight mebibytes.
pub proof fn law_texts_have_a_size(content: Seq<char>)
    ensures
        text_refused(content) is None <==> trimmed(content).len() > 0 && encode_utf8(
            trimmed(content),
        ).len() <= 8 * 1024 * 1024,
        text_refused(content) == Some(ErrorModel::EmptySubscription) <==> trimmed(content).len()
            == 0,
{
}

/// The sources of two kinds never have the same id text, nor two files of different paths.
pub proof fn law_sources_are_told_apart(
    url: Seq<char>,
    path: Seq<char>,
    other: Seq<char>,
    content: Seq<char>,
    nanos: Option<u128>,
)
    ensures
        id_text(SourceModel::Url(url), nanos) != id_text(SourceModel::File(path), nanos),
        id_text(SourceModel::File(path), nanos) != id_text(SourceModel::Text(content), nanos),
        id_text(SourceModel::Text(content), nanos) != id_text(SourceModel::Singbox(content), nanos),
        id_text(SourceModel::Url(url), nanos) != id_text(SourceModel::Node(Some(other)), nanos),
        path != other ==> id_text(SourceModel::File(path), nanos) != id_text(
            SourceModel::File(other),
            nanos,
        ),
        path != other ==> id_text(SourceModel::Text(path), nanos) != id_text(
            SourceModel::Text(other),
            nanos,
        ),
{
    reveal_strlit("url|");
    reveal_strlit("file|");
    reveal_strlit("text|");
    reveal_strlit("node|");
    reveal_strlit("singbox|");
    let u = id_text(SourceModel::Url(url), nanos);
    let f = id_text(SourceModel::File(path), nanos);
    let t = id_text(SourceModel::Text(content), nanos);
    let n = id_text(SourceModel::Node(Some(other)), nanos);
    let s = id_text(SourceModel::Singbox(content), nanos);
    assert(u[0] == 'u' && f[0] == 'f' && t[0] == 't' && n[0] == 'n' && s[0] == 's');
    let g = id_text(SourceModel::File(other), nanos);
    if f == g {
        assert(f.skip(5) =~= path);
        assert(g.skip(5) =~= other);
    }
    let a = id_text(SourceModel::Text(path), nanos);
    let b = id_text(SourceModel::Text(other), nanos);
    if a == b {
        assert(a.skip(5) =~= path);
        assert(b.skip(5) =~= other);
    }
}

proof fn lemma_behind_mark(a: Seq<char>, b: Seq<char>)
    requires
        !b.contains('@'),
    ensures
        after_at(a.push('@') + b) == b,
    decreases b.len(),
{
    let s = a.push('@') + b;
    if b.len() > 0 {
        let c = b.drop_last();
        assert forall|i: int| 0 <= i < c.len() implies c[i] != '@' by {
            assert(b.contains(b[i]));
        }
        assert(!c.contains('@'));
        lemma_behind_mark(a, c);
        assert(s.drop_last() =~= a.push('@') + c);
        assert(s.last() == b.last());
        assert(b.contains(b.last())) by {
            assert(b[b.len() - 1] == b.last());
        }
        assert(c.push(b.last()) =~= b);
    } else {
        assert(s.last() == '@');
    }
}

proof fn lemma_host_runs_to_the_end(s: Seq<char>, k: int)
    requires
        0 <= k <= s.len(),
        forall|i: int| 0 <= i < k ==> #[trigger] s[i] != '?' && s[i] != '#' && s[i] != '/',
        k < s.len() ==> s[k] == '?' || s[k] == '#' || s[k] == '/',
    ensures
        host_end(s) == k,
    decreases k,
{
    if k > 0 {
        let t = s.drop_first();
        assert forall|i: int| 0 <= i < k - 1 implies #[trigger] t[i] != '?' && t[i] != '#' && t[i]
            != '/' by {
            assert(t[i] == s[i + 1]);
        }
        lemma_host_runs_to_the_end(t, k - 1);
    }
}

/// The label of a share link shows the scheme and the host, never what stands before the host
/// (a user, a password) nor what follows it.
pub proof fn law_share_links_hide_their_secret(
    scheme: Seq<char>,
    secret: Seq<char>,
    host: Seq<char>,
    rest: Seq<char>,
)
    requires
        scheme.len() > 0,
        host.len() > 0,
        !scheme.contains(':'),
        !is_space(scheme[0]),
        forall|i: int|
            0 <= i < secret.len() ==> #[trigger] secret[i] != '?' && secret[i] != '#' && secret[i]
                != '/',
        forall|i: int|
            0 <= i < host.len() ==> #[trigger] host[i] != '?' && host[i] != '#' && host[i] != '/'
                && host[i] != '@',
        rest.len() > 0 ==> rest[0] == '?' || rest[0] == '#' || rest[0] == '/',
        rest.len() > 0 ==> !is_space(rest.last()),
        !is_space(host.last()),
    ensures
        masked_uri(scheme + "://"@ + secret + "@"@ + host + rest) == scheme + "://"@ + host,
{
    reveal_strlit("://");
    reveal_strlit("@");
    let uri = scheme + "://"@ + secret + "@"@ + host + rest;
    assert(uri[0] == scheme[0]);
    assert(uri.last() == if rest.len() > 0 {
        rest.last()
    } else {
        host.last()
    });
    lemma_trimmed_same(uri);
    let n = scheme.len() as int;
    assert(uri.subrange(n, n + 3) =~= "://"@);
    assert(first_at(uri, "://"@, n)) by {
        assert forall|j: int| 0 <= j < n implies !occurs_at(uri, "://"@, j) by {
            if occurs_at(uri, "://"@, j) {
                assert(uri.subrange(j, j + 3)[0] == "://"@[0]);
                assert(uri[j] == scheme[j]);
                assert(scheme.contains(scheme[j]));
            }
        }
    }
    lemma_find_pos(uri, "://"@, n);
    let tail = uri.skip(n + 3);
    assert(tail =~= secret + "@"@ + host + rest);
    let k = (secret.len() + 1 + host.len()) as int;
    assert forall|i: int| 0 <= i < k implies #[trigger] tail[i] != '?' && tail[i] != '#' && tail[i]
        != '/' by {
        if i < secret.len() {
            assert(tail[i] == secret[i]);
        } else if i > secret.len() {
            assert(tail[i] == host[i - secret.len() - 1]);
        } else {
            assert(tail[i] == '@');
        }
    }
    if k < tail.len() {
        assert(tail[k] == rest[0]);
    }
    lemma_host_runs_to_the_end(tail, k);
    assert(tail.take(k) =~= secret.push('@') + host);
    assert(!host.contains('@'));
    lemma_behind_mark(secret, host);
    assert(uri.take(n) =~= scheme);
    assert(masked_uri(uri) =~= scheme + "://"@ + host);
}

/// The label of an address shows whether there is a query, never what it says.
pub proof fn law_addresses_hide_their_query(url: Seq<char>, other: Seq<char>, a: UrlModel, b: UrlModel)
    requires
        a.scheme == b.scheme,
        a.host == b.host,
        a.path == b.path,
        a.query is Some <==> b.query is Some,
    ensures
        masked_url(url, Some(a)) == masked_url(other, Some(b)),
        has_prefix(masked_url(url, Some(a)), a.scheme + "://"@),
{
    let m = masked_url(url, Some(a));
    let head = a.scheme + "://"@;
    assert(m.subrange(0, head.len() as int) =~= head);
}

/// A label of a text is its first line that says anything, cut to a length.
pub proof fn law_labels_are_cut(s: Seq<char>, max: int)
    requires
        max >= 0,
    ensures
        s.len() <= max ==> shortened(s, max) == s,
        s.len() > max ==> shortened(s, max).len() == max + 1 && shortened(s, max).take(max)
            == s.take(max) && shortened(s, max).last() == '…',
{
    reveal_strlit("…");
    if s.len() > max {
        assert(shortened(s, max).take(max) =~= s.take(max));
    }
}

/// The first line that says anything is one of the lines, and those before it are blank.
pub proof fn law_first_line_says_something(lines: Seq<Seq<char>>)
    ensures
        first_line(lines) is Some <==> exists|i: int|
            0 <= i < lines.len() && trimmed(#[trigger] lines[i]).len() > 0,
        first_line(lines) matches Some(l) ==> exists|i: int|
            0 <= i < lines.len() && l == trimmed(#[trigger] lines[i]) && l.len() > 0 && forall|
                j: int,
            | 0 <= j < i ==> trimmed(#[trigger] lines[j]).len() == 0,
    decreases lines.len(),
{
    if lines.len() > 0 {
        let t = lines.drop_first();
        law_first_line_says_something(t);
        if trimmed(lines[0]).len() == 0 {
            if exists|i: int| 0 <= i < lines.len() && trimmed(#[trigger] lines[i]).len() > 0 {
                let i = choose|i: int|
                    0 <= i < lines.len() && trimmed(#[trigger] lines[i]).len() > 0;
                assert(t[i - 1] == lines[i]);
            }
            if let Some(l) = first_line(t) {
                let i = choose|i: int|
                    0 <= i < t.len() && l == trimmed(#[trigger] t[i]) && l.len() > 0 && forall|
                        j: int,
                    | 0 <= j < i ==> trimmed(#[trigger] t[j]).len() == 0;
                assert(lines[i + 1] == t[i]);
                assert forall|j: int| 0 <= j < i + 1 implies trimmed(#[trigger] lines[j]).len()
                    == 0 by {
                    if j > 0 {
                        assert(t[j - 1] == lines[j]);
                    }
                }
            }
        }
    }
}

/// The name of a file is what follows the last separator.
pub proof fn law_file_names_have_no_folder(folder: Seq<char>, name: Seq<char>)
    requires
        !name.contains('/'),
        !name.contains('\\'),
    ensures
        base_name(folder.push('/') + name) == name,
        name.len() > 0 ==> last_part(folder.push('/') + name) == name,
        base_name(name) == name,
    decreases name.len(),
{
    let s = folder.push('/') + name;
    if name.len() > 0 {
        let t = name.drop_last();
        assert(name[name.len() - 1] == name.last());
        assert(name.contains(name.last()));
        assert forall|i: int| 0 <= i < t.len() implies t[i] != '/' && t[i] != '\\' by {
            assert(name.contains(name[i]));
        }
        assert(!t.contains('/') && !t.contains('\\'));
        law_file_names_have_no_folder(folder, t);
        assert(s.drop_last() =~= folder.push('/') + t);
        assert(s.last() == name.last());
        assert(t.push(name.last()) =~= name);
        lemma_behind_slash(folder, name);
    } else {
        assert(s.last() == '/');
    }
}

proof fn lemma_behind_slash(folder: Seq<char>, name: Seq<char>)
    requires
        !name.contains('/'),
    ensures
        crate::domain::subscription::behind_last_slash(folder.push('/') + name) == name,
    decreases name.len(),
{
    let s = folder.push('/') + name;
    if name.len() > 0 {
        let t = name.drop_last();
        assert(name[name.len() - 1] == name.last());
        assert(name.contains(name.last()));
        assert forall|i: int| 0 <= i < t.len() implies t[i] != '/' by {
            assert(name.contains(name[i]));
        }
        assert(!t.contains('/'));
        lemma_behind_slash(folder, t);
        assert(s.drop_last() =~= folder.push('/') + t);
        assert(s.last() == name.last());
        assert(t.push(name.last()) =~= name);
    } else {
        assert(s.last() == '/');
    }
}

/// The ending of a configuration is dropped from a name, in any case, and only one.
pub proof fn law_endings_are_dropped(name: Seq<char>, exts: Seq<Seq<char>>, x: int)
    requires
        0 <= x < exts.len(),
        has_suffix(lowered(name), exts[x]),
        forall|j: int| 0 <= j < x ==> !has_suffix(lowered(name), #[trigger] exts[j]),
    ensures
        without_extension(name, exts) == name.take(name.len() - exts[x].len()),
    decreases exts.len(),
{
    if x > 0 {
        let t = exts.drop_first();
        assert(!has_suffix(lowered(name), exts[0]));
        assert(t[x - 1] == exts[x]);
        assert forall|j: int| 0 <= j < x - 1 implies !has_suffix(lowered(name), #[trigger] t[j]) by {
            assert(t[j] == exts[j + 1]);
        }
        law_endings_are_dropped(name, t, x - 1);
    }
}

/// An interval of updates is at least a minute.
pub proof fn law_updates_rest_a_minute(n: u32)
    ensures
        at_least_one(n) >= 1,
        n >= 1 ==> at_least_one(n) == n,
{
}

// ---------------------------------------------------------------------------
// The nodes of an import
// ---------------------------------------------------------------------------
/// An import keeps the first node of each kind: every node found has its like among those
/// kept, those kept were found, and in their order.
pub proof fn law_first_of_each_kind_is_kept(nodes: Seq<ProxyNode>)
    ensures
        distinct_nodes(nodes).len() <= nodes.len(),
        forall|i: int|
            0 <= i < nodes.len() ==> holds_instance(
                distinct_nodes(nodes),
                (#[trigger] nodes[i]).instance(),
            ),
        forall|k: int|
            0 <= k < distinct_nodes(nodes).len() ==> exists|i: int|
                k <= i < nodes.len() && nodes[i] == #[trigger] distinct_nodes(nodes)[k] && forall|
                    j: int,
                | 0 <= j < i ==> (#[trigger] nodes[j]).instance() != nodes[i].instance(),
    decreases nodes.len(),
{
    if nodes.len() > 0 {
        let t = nodes.drop_last();
        let last = nodes.len() - 1;
        law_first_of_each_kind_is_kept(t);
        let before = distinct_nodes(t);
        let all = distinct_nodes(nodes);
        assert(nodes[last] == nodes.last());
        assert forall|key: Seq<char>| holds_instance(before, key) implies holds_instance(
            all,
            key,
        ) by {
            let i = choose|i: int| 0 <= i < before.len() && (#[trigger] before[i]).instance() == key;
            assert(all[i] == before[i]);
        }
        assert forall|i: int| 0 <= i < nodes.len() implies holds_instance(
            all,
            (#[trigger] nodes[i]).instance(),
        ) by {
            if i < last {
                assert(t[i] == nodes[i]);
            } else if !holds_instance(before, nodes[i].instance()) {
                assert(all[before.len() as int] == nodes[i]);
            }
        }
        assert forall|k: int| 0 <= k < all.len() implies exists|i: int|
            k <= i < nodes.len() && nodes[i] == #[trigger] all[k] && forall|j: int|
                0 <= j < i ==> (#[trigger] nodes[j]).instance() != nodes[i].instance() by {
            if k < before.len() {
                assert(all[k] == before[k]);
                let i = choose|i: int|
                    k <= i < t.len() && t[i] == before[k] && forall|j: int|
                        0 <= j < i ==> (#[trigger] t[j]).instance() != t[i].instance();
                assert(nodes[i] == t[i]);
                assert forall|j: int| 0 <= j < i implies (#[trigger] nodes[j]).instance()
                    != nodes[i].instance() by {
                    assert(t[j] == nodes[j]);
                }
            } else {
                assert(nodes[last] == all[k]);
                assert forall|j: int| 0 <= j < last implies (#[trigger] nodes[j]).instance()
                    != nodes[last].instance() by {
                    assert(t[j] == nodes[j]);
                    assert(holds_instance(before, t[j].instance()));
                }
            }
        }
    }
}

/// A subscription that is imported again keeps its id.
pub proof fn law_imports_keep_their_id(existing: String, source: SourceModel, nanos: Option<u128>)
    ensures
        import_id(Some(existing), source, nanos) == existing@,
{
}

// ---------------------------------------------------------------------------
// Answers of services
// ---------------------------------------------------------------------------
/// An answer counts where it names an address; the country is told where it is named.
pub proof fn law_answers_name_an_address(v: JsonModel, ip: Seq<char>, country: Seq<char>, e: Seq<char>)
    ensures
        answer_of(Err(e), ip, country) is None,
        answer_of(Ok(v), ip, country) is Some <==> text_field(v, ip) is Some && trimmed(
            text_field(v, ip)->0,
        ).len() > 0,
        answer_of(Ok(v), ip, country) matches Some(a) ==> {
            &&& a.0 == trimmed(text_field(v, ip)->0)
            &&& a.1 is Some <==> text_field(v, country) is Some && trimmed(
                text_field(v, country)->0,
            ).len() > 0
            &&& a.1 is Some ==> a.1->0 == trimmed(text_field(v, country)->0)
        },
{
}

/// A subscription is shown as it is stored.
pub proof fn law_subscriptions_are_shown_as_they_are(
    s: Subscription,
    v: SubscriptionView,
    file: Option<Seq<char>>,
)
    requires
        s.shown_as(v, file),
    ensures
        v.id == s.id && v.name == s.name && v.enabled == s.enabled && v.node_count == s.node_count,
        v.last_update == s.last_update && v.skipped_count == s.skipped_count && v.format == s.format,
        v.auto_update == s.auto_update && v.traffic == s.traffic,
        v.auto_update_interval_min >= 1,
        s.auto_update_interval_min >= 1 ==> v.auto_update_interval_min
            == s.auto_update_interval_min,
{
}

/// An address of the web is known by what comes before its fragment; any other is not known.
pub proof fn law_addresses_are_known_by_their_base(input: Seq<char>)
    ensures
        canonical_url(input) is Some ==> url_parsed(trimmed(input)) is Some && canonical_url(
            input,
        )->0 == url_parsed(trimmed(input))->0.base,
        url_parsed(trimmed(input)) matches Some(u) ==> (canonical_url(input) is Some <==> u.scheme
            == "http"@ || u.scheme == "https"@),
        url_parsed(trimmed(input)) is None ==> canonical_url(input) is None,
{
}

/// A path is shown whole up to 24 bytes, an address that cannot be read up to 48, and a text
/// that is no link up to 40 characters.
pub proof fn law_long_labels_are_cut(url: Seq<char>, u: UrlModel, text: Seq<char>)
    ensures
        is_ascii_chars(u.path) && u.path.len() <= 24 ==> has_prefix(
            masked_url(url, Some(u)),
            u.scheme + "://"@ + (match u.host {
                Some(h) => h,
                None => "?"@,
            }) + u.path,
        ),
        is_ascii_chars(u.path) && u.path.len() > 24 ==> has_prefix(
            masked_url(url, Some(u)),
            u.scheme + "://"@ + (match u.host {
                Some(h) => h,
                None => "?"@,
            }) + u.path.take(24) + "…"@,
        ),
        is_ascii_chars(url) && url.len() <= 48 ==> masked_url(url, None) == url,
        is_ascii_chars(url) && url.len() > 48 ==> masked_url(url, None) == url.take(48) + "…"@,
        !crate::text::holds_text(trimmed(text), "://"@) && trimmed(text).len() <= 40 ==> masked_uri(
            text,
        ) == trimmed(text),
        !crate::text::holds_text(trimmed(text), "://"@) && trimmed(text).len() > 40 ==> masked_uri(
            text,
        ) == trimmed(text).take(40) + "…"@,
{
    let head = u.scheme + "://"@ + (match u.host {
        Some(h) => h,
        None => "?"@,
    });
    let m = masked_url(url, Some(u));
    if is_ascii_chars(u.path) {
        lemma_ascii_cut(u.path, if u.path.len() > 24 { 24 } else { 0 });
        if u.path.len() <= 24 {
            let p = head + u.path;
            assert(m.subrange(0, p.len() as int) =~= p);
        } else {
            let p = head + u.path.take(24) + "…"@;
            assert(m.subrange(0, p.len() as int) =~= p);
        }
    }
    if is_ascii_chars(url) {
        lemma_ascii_cut(url, if url.len() > 48 { 48 } else { 0 });
    }
}

} // verus!

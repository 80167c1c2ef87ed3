//! What is read from texts and bytes: domains that are asked for, lines of a log, encoded
//! names, and the fields of documents.

use crate::core_kind::CoreKind;
use crate::digest::{hex, hex_digit};
use crate::domain::node::node_tag;
use crate::history::history_cleared;
use crate::journal::{live_cleared, JournalModel};
use crate::json::{field_of, JsonModel};
use crate::log_listener::{
    blamed, failure_of, frame_failure, law_dest_key_drops_the_port, named_proxy, without_brackets,
    FailureModel,
};
use crate::services::dns_diag::{
    asked_domains, cleaned, code_name, distinct_domains, holds_in_any_case, no_query_reason,
    notes_of, without_prefixes,
};
use crate::storage::AppStore;
use crate::text::{
    all_digits, before_char, find_pos, first_at, has_prefix, holds_text, is_space, last_at, lemma_char_pos_is,
    lemma_find_pos, lemma_rfind_pos, lemma_trimmed_same, lowered, occurs_at,
    rfind_pos,
};
use crate::web::{hex_value, percent_bytes};
use vstd::prelude::*;

verus! {

// ---------------------------------------------------------------------------
// Domains that are asked for
// ---------------------------------------------------------------------------
/// A plain name: no scheme, path or port, and no white space at its ends.
pub open spec fn is_plain_host(h: Seq<char>) -> bool {
    &&& h.len() > 0
    &&& !h.contains('/')
    &&& !h.contains(':')
    &&& !is_space(h[0])
    &&& !is_space(h.last())
    &&& h != "."@
}

proof fn lemma_whole(h: Seq<char>, c: char)
    requires
        !h.contains(c),
    ensures
        before_char(h, c) == h,
{
    assert forall|j: int| 0 <= j < h.len() implies h[j] != c by {
        assert(h.contains(h[j]));
    }
    lemma_char_pos_is(h, c, h.len() as int);
    assert(before_char(h, c) =~= h);
}

proof fn lemma_before(h: Seq<char>, c: char, rest: Seq<char>)
    requires
        !h.contains(c),
    ensures
        before_char(h.push(c) + rest, c) == h,
{
    let s = h.push(c) + rest;
    assert(s[h.len() as int] == c);
    assert forall|j: int| 0 <= j < h.len() implies s[j] != c by {
        assert(s[j] == h[j]);
        assert(h.contains(h[j]));
    }
    lemma_char_pos_is(s, c, h.len() as int);
    assert(before_char(s, c) =~= h);
}

proof fn lemma_no_scheme(s: Seq<char>, h: Seq<char>)
    requires
        h.len() > 0,
        !h.contains(':'),
        !h.contains('/'),
        s.len() >= h.len(),
        s.take(h.len() as int) == h,
        s.len() > h.len() ==> s[h.len() as int] == '/' || (s[h.len() as int] == ':' && (s.len()
            > h.len() + 1 ==> s[1 + h.len() as int] != '/')),
    ensures
        !has_prefix(s, "https://"@),
        !has_prefix(s, "http://"@),
{
    reveal_strlit("https://");
    reveal_strlit("http://");
    assert forall|i: int| 0 <= i < h.len() implies #[trigger] s[i] != ':' && s[i] != '/' by {
        assert(s.take(h.len() as int)[i] == h[i]);
        assert(h.contains(h[i]));
    }
    if has_prefix(s, "https://"@) {
        let p = s.subrange(0, 8);
        assert(p[5] == ':' && p[6] == '/' && p[4] == 's' && p[0] == 'h');
        assert(s[5] == ':' && s[6] == '/');
        if h.len() < 5 {
            assert(s[h.len() as int] == p[h.len() as int]);
        }
    }
    if has_prefix(s, "http://"@) {
        let p = s.subrange(0, 7);
        assert(p[4] == ':' && p[5] == '/' && p[3] == 'p');
        assert(s[4] == ':' && s[5] == '/');
        if h.len() < 4 {
            assert(s[h.len() as int] == p[h.len() as int]);
        }
    }
}

/// A domain is asked for whatever stands around it: a scheme before it, a path or a port
/// behind it.
pub proof fn law_domains_are_taken_out_of_addresses(h: Seq<char>, rest: Seq<char>)
    requires
        is_plain_host(h),
        rest.len() > 0 ==> !is_space(rest.last()) && rest[0] != '/',
    ensures
        cleaned(h) == Some(h),
        cleaned("https://"@ + h.push('/') + rest) == Some(h),
        cleaned("http://"@ + h.push('/') + rest) == Some(h),
        cleaned(h.push('/') + rest) == Some(h),
        cleaned(h.push(':') + rest) == Some(h),
{
    reveal_strlit("https://");
    reveal_strlit("http://");
    lemma_trimmed_same(h);
    lemma_whole(h, '/');
    lemma_whole(h, ':');
    assert(h.take(h.len() as int) =~= h);
    lemma_no_scheme(h, h);
    // Behind a slash.
    let a = h.push('/') + rest;
    assert(a.take(h.len() as int) =~= h);
    lemma_no_scheme(a, h);
    lemma_before(h, '/', rest);
    assert(a[0] == h[0]);
    assert(!is_space('/'));
    lemma_trimmed_same(a);
    // Behind a colon.
    let b = h.push(':') + rest;
    assert(b.take(h.len() as int) =~= h);
    lemma_no_scheme(b, h);
    assert(b[0] == h[0]);
    assert(!is_space(':'));
    lemma_trimmed_same(b);
    lemma_port_and_path(h, rest);
    // With a scheme.
    let c = "https://"@ + h.push('/') + rest;
    assert(c[0] == 'h');
    lemma_trimmed_same(c);
    assert(c.subrange(0, 8) =~= "https://"@);
    assert(c.skip(8) =~= a);
    assert(without_prefixes(c, "https://"@) == without_prefixes(a, "https://"@));
    let d = "http://"@ + h.push('/') + rest;
    assert(d[0] == 'h');
    lemma_trimmed_same(d);
    assert(!has_prefix(d, "https://"@)) by {
        if has_prefix(d, "https://"@) {
            assert(d.subrange(0, 8)[4] == 's');
            assert(d[4] == ':');
        }
    }
    assert(d.subrange(0, 7) =~= "http://"@);
    assert(d.skip(7) =~= a);
    assert(without_prefixes(d, "http://"@) == without_prefixes(a, "http://"@));
}

proof fn lemma_port_and_path(h: Seq<char>, rest: Seq<char>)
    requires
        is_plain_host(h),
    ensures
        before_char(before_char(h.push(':') + rest, '/'), ':') == h,
{
    let b = h.push(':') + rest;
    crate::text::lemma_char_pos(b, '/');
    let k = crate::text::char_pos(b, '/');
    assert forall|j: int| 0 <= j < h.len() implies b[j] != '/' by {
        assert(b[j] == h[j]);
        assert(h.contains(h[j]));
    }
    assert(b[h.len() as int] == ':');
    assert(k > h.len());
    let t = before_char(b, '/');
    assert(t == b.take(k));
    assert(t =~= h.push(':') + rest.take(k - h.len() - 1));
    lemma_before(h, ':', rest.take(k - h.len() - 1));
}

/// Every domain that is named is asked for, once, where they are not too many.
pub proof fn law_named_domains_are_asked_for(raw: Seq<Seq<char>>, x: int)
    requires
        0 <= x < raw.len(),
        cleaned(raw[x]) is Some,
    ensures
        holds_in_any_case(distinct_domains(raw), cleaned(raw[x])->0),
        distinct_domains(raw).len() <= 64 ==> asked_domains(raw) == distinct_domains(raw),
    decreases raw.len(),
{
    let t = raw.drop_last();
    let before = distinct_domains(t);
    let all = distinct_domains(raw);
    let d = cleaned(raw[x])->0;
    if x < t.len() {
        assert(t[x] == raw[x]);
        law_named_domains_are_asked_for(t, x);
    }
    if holds_in_any_case(before, d) {
        let i = choose|i: int| 0 <= i < before.len() && lowered(#[trigger] before[i]) == lowered(d);
        assert(all[i] == before[i]);
    } else {
        assert(raw[x] == raw.last());
        assert(all[before.len() as int] == d);
    }
}

/// The core is asked where it runs, has a controller and can be asked.
pub proof fn law_core_is_asked_where_it_can_be(running: bool, has_api: bool, core: CoreKind)
    ensures
        no_query_reason(running, has_api, core) is None <==> running && has_api && core
            != CoreKind::Xray,
{
}

/// An answer of the core is told by its code.
pub proof fn law_codes_have_names()
    ensures
        code_name(0) == "NOERROR"@,
        code_name(1) == "FORMERR"@,
        code_name(2) == "SERVFAIL"@,
        code_name(3) == "NXDOMAIN"@,
        code_name(4) == "NOTIMP"@,
        code_name(5) == "REFUSED"@,
{
}

/// A report says where it is only about right, and where the configuration is not the
/// client's own.
pub proof fn law_reports_say_what_is_uncertain(approx_sets: Seq<Seq<char>>, custom: bool)
    ensures
        notes_of(approx_sets, custom).len() == (if approx_sets.len() > 0 {
            1int
        } else {
            0
        }) + (if custom {
            1int
        } else {
            0
        }),
{
}

// ---------------------------------------------------------------------------
// Lines of a log
// ---------------------------------------------------------------------------
/// A word of a line of the log: nothing in it separates words.
pub open spec fn is_log_word(s: Seq<char>) -> bool {
    s.len() > 0 && forall|i: int|
        0 <= i < s.len() ==> !is_space(#[trigger] s[i]) && s[i] != ':'
}

/// The head of a line: an outbound, a source, an arrow and a destination.
#[verifier::opaque]
spec fn line_head(
    outbound: Seq<char>,
    source: Seq<char>,
    host: Seq<char>,
    port: Seq<char>,
) -> Seq<char> {
    (outbound + seq![' '] + source) + seq![' ', '-', '-', '>', ' '] + (host + seq![':'] + port)
}

/// What separates words in it.
proof fn lemma_head_marks(
    outbound: Seq<char>,
    source: Seq<char>,
    host: Seq<char>,
    port: Seq<char>,
    i: int,
)
    requires
        is_log_word(outbound),
        is_log_word(source),
        is_log_word(host),
        all_digits(port),
        0 <= i < line_head(outbound, source, host, port).len(),
    ensures
        ({
            let head = line_head(outbound, source, host, port);
            let a = outbound.len() as int;
            let b = a + 1 + source.len();
            &&& head[i] == ' ' ==> i == a || i == b || i == b + 4
            &&& head[i] == ':' ==> i == b + 5 + host.len()
            &&& i == b + 1 ==> head[i] == '-'
            &&& i == b + 5 + host.len() ==> head[i] == ':'
            &&& i == b + 6 + host.len() ==> head[i] == port[0]
            &&& head.len() == b + 6 + host.len() + port.len()
        }),
{
    reveal(line_head);
    let head = line_head(outbound, source, host, port);
    let a = outbound.len() as int;
    let b = a + 1 + source.len();
    let colon = b + 5 + host.len();
    if i < a {
        assert(head[i] == outbound[i]);
    } else if a < i < b {
        assert(head[i] == source[i - a - 1]);
    } else if b <= i < b + 5 {
        assert(head[i] == seq![' ', '-', '-', '>', ' '][i - b]);
    } else if b + 5 <= i < colon {
        assert(head[i] == host[i - b - 5]);
    } else if i > colon {
        assert(head[i] == port[i - colon - 1]);
        assert(crate::text::is_digit(port[i - colon - 1]));
    }
}

proof fn lemma_reason_is_first(
    outbound: Seq<char>,
    source: Seq<char>,
    host: Seq<char>,
    port: Seq<char>,
    mark: Seq<char>,
    reason: Seq<char>,
)
    requires
        is_log_word(outbound),
        is_log_word(source),
        is_log_word(host),
        port.len() > 0,
        all_digits(port),
        mark == seq![' ', 'e', 'r', 'r', 'o', 'r', ':', ' '],
    ensures
        find_pos(line_head(outbound, source, host, port) + mark + reason, mark) == Some(
            line_head(outbound, source, host, port).len() as int,
        ),
{
    let head = line_head(outbound, source, host, port);
    let rest = head + mark + reason;
    let e = head.len() as int;
    assert(rest.subrange(e, e + 8) =~= mark);
    assert forall|j: int| 0 <= j < e implies !occurs_at(rest, mark, j) by {
        if j + 8 <= rest.len() {
            lemma_no_reason_at(outbound, source, host, port, mark, rest, j);
        }
    }
    assert(first_at(rest, mark, e));
    lemma_find_pos(rest, mark, e);
}

proof fn lemma_no_reason_at(
    outbound: Seq<char>,
    source: Seq<char>,
    host: Seq<char>,
    port: Seq<char>,
    mark: Seq<char>,
    rest: Seq<char>,
    j: int,
)
    requires
        is_log_word(outbound),
        is_log_word(source),
        is_log_word(host),
        port.len() > 0,
        all_digits(port),
        mark == seq![' ', 'e', 'r', 'r', 'o', 'r', ':', ' '],
        0 <= j < line_head(outbound, source, host, port).len(),
        forall|i: int|
            0 <= i < line_head(outbound, source, host, port).len() ==> #[trigger] rest[i]
                == line_head(outbound, source, host, port)[i],
        j + 8 <= rest.len(),
    ensures
        rest.subrange(j, j + 8) != mark,
{
    let w = rest.subrange(j, j + 8);
    let head = line_head(outbound, source, host, port);
    let e = head.len() as int;
    let b = outbound.len() + 1 + source.len() as int;
    let colon = b + 5 + host.len();
    assert(w[0] == rest[j] && w[1] == rest[j + 1] && w[6] == rest[j + 6] && w[7] == rest[j + 7]);
    assert(rest[j] == head[j]);
    lemma_head_marks(outbound, source, host, port, j);
    assert(crate::text::is_digit(port[0]));
    if j == b {
        lemma_head_marks(outbound, source, host, port, b + 1);
        assert(rest[b + 1] == head[b + 1]);
    } else if j + 6 < e && w[0] == ' ' && w[6] == ':' {
        assert(rest[j + 6] == head[j + 6]);
        lemma_head_marks(outbound, source, host, port, j + 6);
        lemma_head_marks(outbound, source, host, port, j + 7);
        assert(rest[j + 7] == head[j + 7]);
    } else if j == b + 4 && j + 6 >= e {
        // The mark would hold a colon before its own.
        assert(j < colon < j + 6);
        lemma_head_marks(outbound, source, host, port, colon);
        assert(rest[colon] == head[colon]);
        assert(w[colon - j] == rest[colon]);
    }
}

proof fn lemma_arrow_is_last(
    outbound: Seq<char>,
    source: Seq<char>,
    host: Seq<char>,
    port: Seq<char>,
)
    requires
        is_log_word(outbound),
        is_log_word(source),
        is_log_word(host),
        all_digits(port),
    ensures
        rfind_pos(line_head(outbound, source, host, port), seq![' ', '-', '-', '>', ' ']) == Some(
            outbound.len() + 1 + source.len() as int,
        ),
{
    let head = line_head(outbound, source, host, port);
    let arrow = seq![' ', '-', '-', '>', ' '];
    let b = outbound.len() + 1 + source.len() as int;
    reveal(line_head);
    assert(head.subrange(b, b + 5) =~= arrow);
    assert forall|j: int| b < j implies !occurs_at(head, arrow, j) by {
        if occurs_at(head, arrow, j) {
            let w = head.subrange(j, j + 5);
            assert(w[0] == ' ' && w[4] == ' ');
            lemma_head_marks(outbound, source, host, port, j);
            lemma_head_marks(outbound, source, host, port, j + 4);
        }
    }
    assert(last_at(head, arrow, b));
    lemma_rfind_pos(head, arrow, b);
}

proof fn lemma_outbound_is_named(outbound: Seq<char>, source: Seq<char>)
    requires
        is_log_word(outbound),
        is_log_word(source),
    ensures
        named_proxy(outbound + seq![' '] + source) == outbound,
{
    let part = outbound + seq![' '] + source;
    let a = outbound.len() as int;
    reveal_strlit(" (match ");
    assert(!holds_text(part, " (match "@)) by {
        if holds_text(part, " (match "@) {
            let j = choose|j: int| occurs_at(part, " (match "@, j);
            let w = part.subrange(j, j + 8);
            assert(w[0] == ' ' && w[7] == ' ');
            assert(part[j] == ' ' && part[j + 7] == ' ');
            if j < a {
                assert(part[j] == outbound[j]);
            } else {
                assert(part[j + 7] == source[j + 7 - a - 1]);
            }
        }
    }
    assert(part[a] == ' ');
    assert forall|j: int| 0 <= j < a implies part[j] != ' ' by {
        assert(part[j] == outbound[j]);
    }
    lemma_char_pos_is(part, ' ', a);
    assert(before_char(part, ' ') =~= outbound);
    assert(!is_space(outbound[0]) && !is_space(outbound[a - 1]));
    lemma_trimmed_same(outbound);
}

/// A line of a failed dial names the outbound and the destination: `[TCP] dial OUTBOUND SOURCE
/// --> HOST:PORT error: REASON`.
pub proof fn law_dial_lines_name_outbound_and_destination(
    outbound: Seq<char>,
    source: Seq<char>,
    host: Seq<char>,
    port: Seq<char>,
    reason: Seq<char>,
)
    requires
        is_log_word(outbound),
        is_log_word(source),
        is_log_word(host),
        port.len() > 0,
        all_digits(port),
        without_brackets(host).len() > 0,
    ensures
        failure_of(
            "[TCP] dial "@ + ((outbound + seq![' '] + source) + " --> "@ + (host + ":"@ + port)
                + " error: "@ + reason),
        ) == Some(FailureModel { proxy: outbound, dest: without_brackets(host) }),
{
    reveal_strlit("[TCP] dial ");
    reveal_strlit(" --> ");
    reveal_strlit(" error: ");
    reveal_strlit(":");
    let part = outbound + seq![' '] + source;
    let dest = host + ":"@ + port;
    let head = line_head(outbound, source, host, port);
    assert(" --> "@ =~= seq![' ', '-', '-', '>', ' ']);
    assert(" error: "@ =~= seq![' ', 'e', 'r', 'r', 'o', 'r', ':', ' ']);
    assert(":"@ =~= seq![':']);
    reveal(line_head);
    let rest = part + " --> "@ + dest + " error: "@ + reason;
    assert(rest == head + " error: "@ + reason);
    let line = "[TCP] dial "@ + rest;
    assert(line.subrange(0, 11) =~= "[TCP] dial "@);
    assert(line.skip(11) =~= rest);
    lemma_reason_is_first(outbound, source, host, port, " error: "@, reason);
    assert(rest.take(head.len() as int) =~= head);
    lemma_arrow_is_last(outbound, source, host, port);
    let b = part.len() as int;
    assert(head.take(b) =~= part);
    assert(head.skip(b + 5) =~= dest);
    lemma_outbound_is_named(outbound, source);
    assert(dest[0] == host[0] && dest.last() == port[port.len() - 1]);
    assert(crate::text::is_digit(port[port.len() - 1]));
    lemma_trimmed_same(dest);
    assert(host.last() == host[host.len() - 1]);
    law_dest_key_drops_the_port(host, port);
}

/// Only warnings and errors tell of a failure.
pub proof fn law_only_warnings_tell_of_failures(level: Seq<char>, payload: Seq<char>)
    ensures
        frame_failure(None) is None,
        lowered(level) == "warning"@ || lowered(level) == "error"@ ==> frame_failure(
            Some((level, payload)),
        ) == failure_of(payload),
        lowered(level) != "warning"@ && lowered(level) != "error"@ ==> frame_failure(
            Some((level, payload)),
        ) is None,
{
}

/// A line that tells of no dial tells of no failure.
pub proof fn law_failures_are_of_dials(payload: Seq<char>)
    ensures
        failure_of(payload) is Some ==> has_prefix(payload, "[TCP] dial "@) || has_prefix(
            payload,
            "[UDP] dial "@,
        ),
        failure_of(payload) matches Some(f) ==> f.proxy.len() > 0 && f.dest.len() > 0,
{
}

/// A failure is blamed on the node that the line names; one of the main group on the node that
/// is selected, where the store has it; and any other on nobody.
pub proof fn law_failures_are_blamed_on_nodes(store: AppStore, proxy: Seq<char>)
    ensures
        has_prefix(proxy, "node-"@) ==> blamed(store, proxy) == Some(proxy),
        proxy == "proxy"@ && store.settings.current_node_id is Some && store.node_pos(
            store.settings.current_node_id->0@,
        ) is Some ==> blamed(store, proxy) == Some(node_tag(store.settings.current_node_id->0@)),
        proxy == "proxy"@ && store.settings.current_node_id is None ==> blamed(store, proxy) is None,
        !has_prefix(proxy, "node-"@) && proxy != "proxy"@ ==> blamed(store, proxy) is None,
{
    reveal_strlit("node-");
    reveal_strlit("proxy");
    assert("proxy"@[0] == 'p' && "node-"@[0] == 'n');
    if proxy == "proxy"@ && has_prefix(proxy, "node-"@) {
        assert(proxy.subrange(0, 5)[0] == 'n');
    }
}

// ---------------------------------------------------------------------------
// Encoded bytes
// ---------------------------------------------------------------------------
/// Bytes without a percent sign stand for themselves.
pub proof fn law_plain_bytes_stand_for_themselves(b: Seq<u8>)
    requires
        forall|i: int| 0 <= i < b.len() ==> #[trigger] b[i] != 37,
    ensures
        percent_bytes(b) == b,
    decreases b.len(),
{
    if b.len() > 0 {
        let t = b.skip(1);
        assert forall|i: int| 0 <= i < t.len() implies #[trigger] t[i] != 37 by {
            assert(t[i] == b[i + 1]);
        }
        assert(b[0] != 37);
        law_plain_bytes_stand_for_themselves(t);
        assert(seq![b[0]] + t =~= b);
    } else {
        assert(percent_bytes(b) =~= b);
    }
}

/// The digit of a value up to fifteen, as a byte.
pub open spec fn digit_byte(d: u8) -> u8 {
    if d < 10 {
        (d + 48) as u8
    } else {
        (d + 55) as u8
    }
}

/// Bytes with a percent sign and two digits for each.
pub open spec fn percent_encoded(b: Seq<u8>) -> Seq<u8>
    decreases b.len(),
{
    if b.len() == 0 {
        Seq::empty()
    } else {
        seq![37u8, digit_byte(b[0] / 16), digit_byte(b[0] % 16)] + percent_encoded(b.skip(1))
    }
}

/// What was encoded byte by byte reads back.
pub proof fn law_encoded_bytes_read_back(b: Seq<u8>)
    ensures
        percent_bytes(percent_encoded(b)) == b,
    decreases b.len(),
{
    if b.len() > 0 {
        let t = b.skip(1);
        law_encoded_bytes_read_back(t);
        let e = percent_encoded(b);
        let rest = percent_encoded(t);
        assert(e.len() >= 3);
        assert(e[0] == 37 && e[1] == digit_byte(b[0] / 16) && e[2] == digit_byte(b[0] % 16));
        assert(hex_value(e[1]) == Some((b[0] / 16) as u8));
        assert(hex_value(e[2]) == Some((b[0] % 16) as u8));
        assert(e.skip(3) =~= rest);
        assert(seq![b[0]] + t =~= b);
    } else {
        assert(percent_encoded(b) =~= Seq::empty());
        assert(percent_bytes(percent_encoded(b)) =~= b);
    }
}

/// Digits of bytes tell the bytes: two for each, the higher first.
pub proof fn law_digits_tell_the_bytes(b: Seq<u8>, i: int)
    requires
        0 <= i < b.len(),
    ensures
        hex(b).len() == 2 * b.len(),
        ({
            let hi = hex(b)[2 * i];
            let lo = hex(b)[2 * i + 1];
            &&& '0' <= hi <= '9' || 'a' <= hi <= 'f'
            &&& '0' <= lo <= '9' || 'a' <= lo <= 'f'
            &&& b[i] == 16 * digit_of(hi) + digit_of(lo)
        }),
{
    assert((2 * i) / 2 == i && (2 * i + 1) / 2 == i && (2 * i) % 2 == 0 && (2 * i + 1) % 2 == 1);
    assert(hex(b)[2 * i] == hex_digit(b[i] as int / 16));
    assert(hex(b)[2 * i + 1] == hex_digit(b[i] as int % 16));
}

/// The value of a digit.
pub open spec fn digit_of(c: char) -> int {
    if c <= '9' {
        c as int - 48
    } else {
        c as int - 87
    }
}

// ---------------------------------------------------------------------------
// Fields of a document
// ---------------------------------------------------------------------------
/// The field of a name is the first that has it.
pub proof fn law_first_field_of_a_name(fields: Seq<(Seq<char>, JsonModel)>, name: Seq<char>)
    ensures
        field_of(fields, name) is Some <==> exists|i: int|
            0 <= i < fields.len() && (#[trigger] fields[i]).0 == name,
        field_of(fields, name) matches Some(v) ==> exists|i: int|
            0 <= i < fields.len() && #[trigger] fields[i] == (name, v) && forall|j: int|
                0 <= j < i ==> (#[trigger] fields[j]).0 != name,
    decreases fields.len(),
{
    if fields.len() > 0 {
        let t = fields.drop_first();
        law_first_field_of_a_name(t, name);
        if fields[0].0 == name {
            assert(fields[0] == (name, fields[0].1));
        } else {
            if exists|i: int| 0 <= i < fields.len() && (#[trigger] fields[i]).0 == name {
                let i = choose|i: int| 0 <= i < fields.len() && (#[trigger] fields[i]).0 == name;
                assert(t[i - 1] == fields[i]);
            }
            if let Some(v) = field_of(t, name) {
                let i = choose|i: int|
                    0 <= i < t.len() && #[trigger] t[i] == (name, v) && forall|j: int|
                        0 <= j < i ==> (#[trigger] t[j]).0 != name;
                assert(fields[i + 1] == t[i]);
                assert forall|j: int| 0 <= j < i + 1 implies (#[trigger] fields[j]).0 != name by {
                    if j > 0 {
                        assert(t[j - 1] == fields[j]);
                    }
                }
            }
        }
    }
}

// ---------------------------------------------------------------------------
// The journal is cleared
// ---------------------------------------------------------------------------
/// Clearing the history drops the requests that closed, keeps those that are open as they are,
/// and touches neither the connections nor the numbers.
pub proof fn law_clearing_keeps_what_is_open(j: JournalModel, k: Seq<char>)
    ensures
        history_cleared(j).records.contains_key(k) <==> j.records.contains_key(k)
            && !j.records[k].closed,
        history_cleared(j).records.contains_key(k) ==> history_cleared(j).records[k]
            == j.records[k],
        history_cleared(j).live == j.live && history_cleared(j).seq == j.seq
            && history_cleared(j).revision == j.revision,
{
}

/// With the core gone no connection is open; the requests are as they were.
pub proof fn law_no_connection_outlives_the_core(j: JournalModel)
    ensures
        live_cleared(j).live.len() == 0,
        live_cleared(j).records == j.records && live_cleared(j).order == j.order
            && live_cleared(j).seq == j.seq,
        j.live.len() > 0 && j.revision < u64::MAX ==> live_cleared(j).revision > j.revision,
{
}

} // verus!

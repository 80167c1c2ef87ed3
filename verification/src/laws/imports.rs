//! Imports: what headers, comments and notices say, and which nodes are kept.

use crate::domain::node::ProxyNode;
use crate::domain::subscription::{
    masked_uri, source_kind, source_label, SourceModel, SubscriptionTraffic,
};
use crate::services::disposition::{clean_name, disposition_name, param_of, part_param, star_text};
use crate::services::import::{
    fetched_name, fetched_quota, freshly_identified, is_real, kept_nodes, names_quota, noted_all,
    plain_name, plainly_named, traffic_is, url_name, FetchedBody, ImportContext,
};
use crate::services::quota::{
    after_label, after_labels, after_sign, any_userinfo, comment_line, comment_userinfo,
    head_lines, header_userinfo, info_label, key_value, label_gap, moment_named, noted, number_end,
    reading_of, remark, says_left, size_written, unit_power, unlimited, unquoted, userinfo,
    values_named, with_part, with_parts, CommentLine, FloatReading, Header, Remark, TrafficModel,
};
use crate::text::{
    after_char, before_char, has_prefix, holds_text, is_space, lemma_char_pos_is,
    lemma_trim_start_skip, lemma_trimmed_same, lemma_trimmed_twice, lowered, opt_view, text_lines,
    trimmed,
};
use vstd::prelude::*;

verus! {

// ---------------------------------------------------------------------------
// Headers and comments
// ---------------------------------------------------------------------------
/// A plain word: no white space at its ends, no quotation mark there, and no equals sign.
pub open spec fn is_word(s: Seq<char>) -> bool {
    &&& s.len() > 0
    &&& !is_space(s[0])
    &&& !is_space(s.last())
    &&& s[0] != '"' && s[0] != '\''
    &&& s.last() != '"' && s.last() != '\''
    &&& !s.contains('=')
}

/// A part `key=value` is its key, in small letters, and its value.
pub proof fn law_parts_have_a_key_and_a_value(key: Seq<char>, value: Seq<char>)
    requires
        is_word(key),
        is_word(value),
    ensures
        key_value(key.push('=') + value) == Some((lowered(key), value)),
        key_value(key) is None,
{
    let s = key.push('=') + value;
    let n = key.len() as int;
    assert(s[0] == key[0] && s.last() == value.last());
    lemma_trimmed_same(s);
    lemma_trimmed_same(key);
    lemma_trimmed_same(value);
    assert(s[n] == '=');
    assert forall|j: int| 0 <= j < n implies s[j] != '=' by {
        assert(s[j] == key[j]);
        assert(key.contains(key[j]));
    }
    lemma_char_pos_is(s, '=', n);
    assert(s.contains('='));
    assert(before_char(s, '=') =~= key);
    assert(after_char(s, '=') =~= value);
    lemma_not_quoted(value);
}

proof fn lemma_not_quoted(v: Seq<char>)
    requires
        v.len() > 0,
        v[0] != '"' && v[0] != '\'',
        v.last() != '"' && v.last() != '\'',
    ensures
        unquoted(v) == v,
{
    let q = crate::services::quota::quotes();
    assert(!seq!['"', '\''].contains(v[0]));
    assert(!seq!['"', '\''].contains(v.last()));
    assert(!q(v[0]) && !q(v.last()));
}

/// A later part of a quota is read after the earlier ones, and no part says nothing.
pub proof fn law_parts_are_read_in_order(
    parts: Seq<Seq<char>>,
    part: Seq<char>,
    floats: Seq<(String, FloatReading)>,
)
    ensures
        with_parts(parts.push(part), floats) == with_part(with_parts(parts, floats), part, floats),
        with_parts(Seq::empty(), floats).upload is None && with_parts(
            Seq::empty(),
            floats,
        ).total is None && with_parts(Seq::empty(), floats).expire is None,
{
    assert(parts.push(part).drop_last() =~= parts);
}

/// A header counts where it has the name and says anything.
pub proof fn law_headers_count_by_name(headers: Seq<Header>, h: Header, name: Seq<char>)
    ensures
        h.name@ == name && trimmed(h.value@).len() > 0 ==> values_named(headers.push(h), name)
            == values_named(headers, name).push(trimmed(h.value@)),
        h.name@ != name || trimmed(h.value@).len() == 0 ==> values_named(headers.push(h), name)
            == values_named(headers, name),
{
    assert(headers.push(h).drop_last() =~= headers);
}

/// Of the lines at the start of a configuration only remarks tell of a quota, and none behind
/// the configuration's start does.
pub proof fn law_quotas_are_in_remarks(
    line: Seq<char>,
    lines: Seq<Seq<char>>,
    floats: Seq<(String, FloatReading)>,
)
    ensures
        comment_line(line) is Quota ==> trimmed(line).len() > 0 && trimmed(line)[0] == '#',
        comment_line(line) is Start ==> comment_userinfo(seq![line] + lines, floats) is None,
        comment_line(line) is Other ==> comment_userinfo(seq![line] + lines, floats)
            == comment_userinfo(lines, floats),
        comment_line(line) matches CommentLine::Quota(body) ==> (userinfo(body, floats) is Some
            ==> comment_userinfo(seq![line] + lines, floats) == userinfo(body, floats)),
        has_prefix(trimmed(line), "proxies"@) && trimmed(line)[0] != '#' ==> comment_line(line) is Start,
{
    let all = seq![line] + lines;
    assert(all[0] == line);
    assert(all.drop_first() =~= lines);
    reveal_strlit("proxies");
}

// ---------------------------------------------------------------------------
// Notices in the place of nodes
// ---------------------------------------------------------------------------
/// What follows a label and a colon is what the notice says.
pub proof fn law_labels_are_taken_off(label: Seq<char>, t: Seq<char>)
    requires
        t.len() > 0,
        !seq!['：', ':', ' ', '\t', '-', '—'].contains(t[0]),
    ensures
        after_label(label.push('：') + t, label) == Some(t),
        after_label(label.push(':') + t, label) == Some(t),
        after_label(label + t, label) == Some(t),
{
    let gap = label_gap();
    let set = seq!['：', ':', ' ', '\t', '-', '—'];
    assert(set[0] == '：' && set[1] == ':');
    assert(set.contains('：') && set.contains(':'));
    assert(!gap(t[0]));
    let n = label.len() as int;
    let a = label.push('：') + t;
    assert(a.subrange(0, n) =~= label);
    let ta = a.skip(n);
    assert(ta =~= seq!['：'] + t);
    assert(gap(ta[0]));
    assert(ta[1] == t[0]);
    lemma_trim_start_skip(ta, gap, 1);
    assert(ta.skip(1) =~= t);
    let b = label.push(':') + t;
    assert(b.subrange(0, n) =~= label);
    let tb = b.skip(n);
    assert(tb =~= seq![':'] + t);
    assert(gap(tb[0]));
    assert(tb[1] == t[0]);
    lemma_trim_start_skip(tb, gap, 1);
    assert(tb.skip(1) =~= t);
    let c = label + t;
    assert(c.subrange(0, n) =~= label);
    assert(c.skip(n) =~= t);
    lemma_trim_start_skip(t, gap, 0);
    assert(t.skip(0) =~= t);
}

/// The first of the labels that a name starts with counts.
pub proof fn law_first_label_counts(name: Seq<char>, labels: Seq<&'static str>, x: int)
    requires
        0 <= x < labels.len(),
        after_label(name, labels[x]@) is Some,
        forall|j: int| 0 <= j < x ==> after_label(name, (#[trigger] labels[j])@) is None,
    ensures
        after_labels(name, labels) == after_label(name, labels[x]@),
    decreases labels.len(),
{
    if x > 0 {
        let t = labels.drop_first();
        assert(after_label(name, labels[0]@) is None);
        assert(t[x - 1] == labels[x]);
        assert forall|j: int| 0 <= j < x - 1 implies after_label(name, (#[trigger] t[j])@) is None by {
            assert(t[j] == labels[j + 1]);
        }
        law_first_label_counts(name, t, x - 1);
    }
}

/// A notice of what is left says that, one of what was used that, one of the whole that, and
/// one of the end when that is; a name that is no notice is a node's.
pub proof fn law_notices_say_what_their_label_says(raw: Seq<char>, sizes: Seq<(String, u64)>, n: u64)
    ensures
        ({
            let name = trimmed(raw);
            let left = after_labels(name, crate::services::quota::REMAINING_LABELS@);
            let used = after_labels(name, crate::services::quota::USED_LABELS@);
            let total = after_labels(name, crate::services::quota::TOTAL_LABELS@);
            let until = after_labels(name, crate::services::quota::EXPIRE_LABELS@);
            &&& name.len() == 0 ==> remark(raw, sizes) is None
            &&& name.len() > 0 && left is Some && reading_of(sizes, left->0) == Some(n) ==> remark(
                raw,
                sizes,
            ) == Some(Remark::Left(n))
            &&& name.len() > 0 && left is None && used is Some && reading_of(sizes, used->0) == Some(
                n,
            ) ==> remark(raw, sizes) == Some(Remark::Used(n))
            &&& name.len() > 0 && left is None && used is None && total is Some && reading_of(
                sizes,
                total->0,
            ) == Some(n) ==> remark(raw, sizes) == Some(Remark::Total(n))
            &&& name.len() > 0 && left is None && used is None && total is None && until is Some
                && trimmed(until->0).len() > 0 ==> match moment_named(trimmed(until->0)) {
                Some(ts) => remark(raw, sizes) == Some(Remark::Ends(ts)),
                None => remark(raw, sizes) == Some(Remark::EndsAs(trimmed(until->0))),
            }
        }),
{
    lemma_trimmed_twice(raw);
}

/// The notices of a list are read one after the other; a node adds nothing.
pub proof fn law_notices_add_up(nodes: Seq<ProxyNode>, n: ProxyNode, sizes: Seq<(String, u64)>)
    ensures
        remark(n.name@, sizes) is None ==> noted_all(nodes.push(n), sizes) == noted_all(nodes, sizes),
        remark(n.name@, sizes) matches Some(m) ==> noted_all(nodes.push(n), sizes) == noted(
            noted_all(nodes, sizes),
            m,
        ),
{
    assert(nodes.push(n).drop_last() =~= nodes);
}

// ---------------------------------------------------------------------------
// The nodes and the name of an import
// ---------------------------------------------------------------------------
proof fn lemma_real(nodes: Seq<ProxyNode>, p: spec_fn(ProxyNode) -> bool)
    ensures
        forall|i: int| 0 <= i < nodes.filter(p).len() ==> p(#[trigger] nodes.filter(p)[i]),
    decreases nodes.len(),
{
    reveal(Seq::filter);
    if nodes.len() > 0 {
        let t = nodes.drop_last();
        lemma_real(t, p);
        assert forall|i: int| 0 <= i < nodes.filter(p).len() implies p(
            #[trigger] nodes.filter(p)[i],
        ) by {
            if i < t.filter(p).len() {
                assert(nodes.filter(p)[i] == t.filter(p)[i]);
            }
        }
    }
}

/// An import that reads the quota keeps no notice as a node.
pub proof fn law_notices_are_no_nodes(
    found: Seq<ProxyNode>,
    kept: Seq<ProxyNode>,
    sizes: Seq<(String, u64)>,
    k: int,
)
    requires
        kept_nodes(found, kept, true, sizes),
        0 <= k < kept.len(),
    ensures
        remark(kept[k].name@, sizes) is None,
{
    let left = found.filter(is_real(sizes));
    lemma_real(found, is_real(sizes));
    crate::laws::subscriptions::law_first_of_each_kind_is_kept(left);
    let i = choose|i: int|
        k <= i < left.len() && left[i] == crate::services::import::distinct_nodes(left)[k] && forall|
            j: int,
        | 0 <= j < i ==> (#[trigger] left[j]).instance() != left[i].instance();
    assert(is_real(sizes)(left[i]));
}

/// One that does not read it names such nodes by what they are, and keeps all other names.
pub proof fn law_notices_that_are_nodes_are_named_plainly(
    a: ProxyNode,
    b: ProxyNode,
    sizes: Seq<(String, u64)>,
)
    requires
        plainly_named(a, b, sizes),
    ensures
        remark(a.name@, sizes) is None ==> b.name@ == a.name@,
        remark(a.name@, sizes) is Some ==> b.name@ == plain_name(a),
        b.server == a.server && b.port == a.port && b.config == a.config && b.protocol
            == a.protocol && b.id == a.id,
        has_prefix(plain_name(a), a.protocol.name()),
{
    let p = plain_name(a);
    let n = a.protocol.name();
    assert(p.subrange(0, n.len() as int) =~= n);
}

/// An imported node has no latency yet, and is otherwise as it was found.
pub proof fn law_imported_nodes_are_fresh(a: ProxyNode, b: ProxyNode)
    requires
        freshly_identified(a, b),
    ensures
        b.latency_ms is None && b.latency_at is None,
        b.name == a.name && b.server == a.server && b.port == a.port && b.config == a.config
            && b.protocol == a.protocol && b.tls == a.tls && b.transport == a.transport,
{
}

/// A fetched subscription is named as the user said, else as the server said, else by its
/// host.
pub proof fn law_fetched_names_come_in_order(
    name: Option<String>,
    disposition: Option<String>,
    url: Seq<char>,
)
    ensures
        name is Some && trimmed(name->0@).len() > 0 ==> fetched_name(name, disposition, url)
            == trimmed(name->0@),
        name is None && disposition is Some && disposition_name(disposition->0@) is Some
            ==> fetched_name(name, disposition, url) == disposition_name(disposition->0@)->0,
        name is None && (disposition is None || disposition_name(disposition->0@) is None)
            ==> fetched_name(name, disposition, url) == url_name(url),
{
}

/// What the headers say of the quota comes before what the text says, and that before what
/// the notices say.
pub proof fn law_headers_come_before_notices(
    t: Option<SubscriptionTraffic>,
    body: FetchedBody,
    found: Seq<ProxyNode>,
    cx: ImportContext,
)
    requires
        fetched_quota(t, body, found, cx),
    ensures
        ({
            let h = header_userinfo(body.headers@, cx.floats@);
            &&& h is Some && h->0.total is Some ==> t is Some && t->0.total == h->0.total
            &&& h is Some && h->0.upload is Some ==> t is Some && t->0.upload == h->0.upload
            &&& h is Some && h->0.download is Some ==> t is Some && t->0.download == h->0.download
            &&& h is Some && h->0.expire is Some ==> t is Some && t->0.expire == h->0.expire
        }),
{
}

/// A file name of a server: an encoded one comes before a plain one; and what is left of it
/// has no folder.
pub proof fn law_encoded_file_names_come_first(disposition: Seq<char>)
    ensures
        ({
            let parts = crate::text::pieces(disposition, ';');
            let star = param_of(parts, "filename*"@);
            &&& star is Some && star_text(star->0) is Some && clean_name(
                star_text(star->0)->0,
            ).len() > 0 ==> disposition_name(disposition) == Some(clean_name(star_text(star->0)->0))
            &&& star is None && param_of(parts, "filename"@) is None ==> disposition_name(
                disposition,
            ) is None
        }),
        disposition_name(disposition) matches Some(n) ==> n.len() > 0,
{
}

/// A parameter is the first of its name, in any case.
pub proof fn law_first_parameter_counts(parts: Seq<Seq<char>>, key: Seq<char>, x: int)
    requires
        0 <= x < parts.len(),
        part_param(parts[x], key) is Some,
        forall|j: int| 0 <= j < x ==> part_param(#[trigger] parts[j], key) is None,
    ensures
        param_of(parts, key) == part_param(parts[x], key),
    decreases parts.len(),
{
    if x > 0 {
        let t = parts.drop_first();
        assert(part_param(parts[0], key) is None);
        assert(t[x - 1] == parts[x]);
        assert forall|j: int| 0 <= j < x - 1 implies part_param(#[trigger] t[j], key) is None by {
            assert(t[j] == parts[j + 1]);
        }
        law_first_parameter_counts(t, key, x - 1);
    }
}

/// A part `key=value` is the parameter of that key.
pub proof fn law_parameters_have_a_key(key: Seq<char>, value: Seq<char>, asked: Seq<char>)
    requires
        is_word(key),
        is_word(value),
    ensures
        lowered(key) == lowered(asked) ==> part_param(key.push('=') + value, asked) == Some(value),
        lowered(key) != lowered(asked) ==> part_param(key.push('=') + value, asked) is None,
{
    let s = key.push('=') + value;
    let n = key.len() as int;
    assert(s[0] == key[0] && s.last() == value.last());
    lemma_trimmed_same(s);
    lemma_trimmed_same(key);
    lemma_trimmed_same(value);
    assert(s[n] == '=');
    assert forall|j: int| 0 <= j < n implies s[j] != '=' by {
        assert(s[j] == key[j]);
        assert(key.contains(key[j]));
    }
    lemma_char_pos_is(s, '=', n);
    assert(s.contains('='));
    assert(before_char(s, '=') =~= key);
    assert(after_char(s, '=') =~= value);
}

/// A source is shown by its kind, and never with its secret: a link masked, a file by its
/// name, a configuration by its kind alone.
pub proof fn law_sources_are_shown_by_their_kind(s: SourceModel, file: Option<Seq<char>>)
    ensures
        s is Url <==> source_kind(s) == "url"@,
        s is File <==> source_kind(s) == "file"@,
        s is Singbox <==> source_kind(s) == "singbox"@,
        s matches SourceModel::Node(Some(u)) ==> source_label(s, file) == masked_uri(u),
        s is Singbox ==> source_label(s, file) == "sing-box"@,
        s is File && file is Some ==> source_label(s, file) == file->0,
        s matches SourceModel::File(p) ==> (file is None ==> source_label(s, file) == p),
        s is Text ==> source_label(s, file).len() <= 49,
{
    reveal_strlit("url");
    reveal_strlit("file");
    reveal_strlit("text");
    reveal_strlit("node");
    reveal_strlit("singbox");
    reveal_strlit("…");
    assert("url"@.len() == 3 && "file"@.len() == 4 && "text"@.len() == 4 && "node"@.len() == 4
        && "singbox"@.len() == 7);
    assert("file"@[0] == 'f' && "text"@[0] == 't' && "node"@[0] == 'n');
}

/// An import that does not read the quota keeps nodes under their own names, those of notices
/// under plain ones: each kept node was found.
pub proof fn law_all_other_nodes_are_kept(
    found: Seq<ProxyNode>,
    kept: Seq<ProxyNode>,
    sizes: Seq<(String, u64)>,
    k: int,
)
    requires
        kept_nodes(found, kept, false, sizes),
        0 <= k < kept.len(),
    ensures
        kept.len() <= found.len(),
        exists|i: int| 0 <= i < found.len() && plainly_named(#[trigger] found[i], kept[k], sizes),
{
    let named = choose|named: Seq<ProxyNode>|
        #![trigger crate::services::import::distinct_nodes(named)]
        {
            &&& named.len() == found.len()
            &&& forall|i: int|
                0 <= i < found.len() ==> plainly_named(found[i], #[trigger] named[i], sizes)
            &&& kept == crate::services::import::distinct_nodes(named)
        };
    crate::laws::subscriptions::law_first_of_each_kind_is_kept(named);
    let i = choose|i: int|
        k <= i < named.len() && named[i] == crate::services::import::distinct_nodes(named)[k]
            && forall|j: int|
            0 <= j < i ==> (#[trigger] named[j]).instance() != named[i].instance();
    assert(plainly_named(found[i], named[i], sizes));
}

/// A quota is told where anything of it is known, as it is known.
pub proof fn law_known_quotas_are_told(t: Option<SubscriptionTraffic>, m: TrafficModel)
    requires
        traffic_is(t, m),
    ensures
        t is Some <==> m.upload is Some || m.download is Some || m.total is Some
            || m.quota_remaining is Some || m.expire is Some || m.expire_text is Some,
        t matches Some(x) ==> x.upload == m.upload && x.download == m.download && x.total == m.total
            && x.quota_remaining == m.quota_remaining && x.expire == m.expire && opt_view(
            x.expire_text,
        ) == m.expire_text,
{
}

/// Without reading it, an import tells of no quota.
pub proof fn law_quota_is_told_where_it_is_read(
    t: Option<SubscriptionTraffic>,
    found: Seq<ProxyNode>,
    sizes: Seq<(String, u64)>,
)
    ensures
        names_quota(t, found, false, sizes) <==> t is None,
        names_quota(t, found, true, sizes) <==> traffic_is(t, noted_all(found, sizes)),
{
}

/// Names that only inform are notices.
pub proof fn law_information_is_no_node(name: Seq<char>)
    ensures
        ({
            let n = trimmed(name);
            &&& n == "官网"@ || n == "官方网站"@ || n == "更新"@ || n == "更新订阅"@ ==> info_label(name)
            &&& n == "公告"@ || n == "说明"@ || n == "教程"@ || n == "测速"@ ==> info_label(name)
            &&& n == "Traffic"@ || n == "Expire"@ ==> info_label(name)
            &&& has_prefix(n, "http://"@) || has_prefix(n, "https://"@) ==> info_label(name)
            &&& info_label(name) ==> n.len() > 0
        }),
        forall|low: Seq<char>|
            holds_text(low, "remaining"@) || holds_text(low, "left"@) ==> #[trigger] says_left(low),
{
    reveal_strlit("官网");
    reveal_strlit("官方网站");
    reveal_strlit("更新");
    reveal_strlit("更新订阅");
    reveal_strlit("公告");
    reveal_strlit("说明");
    reveal_strlit("教程");
    reveal_strlit("测速");
    reveal_strlit("Traffic");
    reveal_strlit("Expire");
    reveal_strlit("http://");
    reveal_strlit("https://");
}

/// What a text was read as is what the first reading of it says.
pub proof fn law_first_reading_counts<A>(table: Seq<(String, A)>, text: Seq<char>, x: int)
    requires
        0 <= x < table.len(),
        table[x].0@ == text,
        forall|j: int| 0 <= j < x ==> (#[trigger] table[j]).0@ != text,
    ensures
        reading_of(table, text) == Some(table[x].1),
    decreases table.len(),
{
    if x > 0 {
        let t = table.drop_first();
        assert(table[0].0@ != text);
        assert(t[x - 1] == table[x]);
        assert forall|j: int| 0 <= j < x - 1 implies (#[trigger] t[j]).0@ != text by {
            assert(t[j] == table[j + 1]);
        }
        law_first_reading_counts(t, text, x - 1);
    }
}

/// A text that was not read has no reading.
pub proof fn law_unread_texts_have_no_reading<A>(table: Seq<(String, A)>, text: Seq<char>)
    requires
        forall|j: int| 0 <= j < table.len() ==> (#[trigger] table[j]).0@ != text,
    ensures
        reading_of(table, text) is None,
    decreases table.len(),
{
    if table.len() > 0 {
        let t = table.drop_first();
        assert(table[0].0@ != text);
        assert forall|j: int| 0 <= j < t.len() implies (#[trigger] t[j]).0@ != text by {
            assert(t[j] == table[j + 1]);
        }
        law_unread_texts_have_no_reading(t, text);
    }
}

/// Any header whose name speaks of the user's quota counts, the first that says anything.
pub proof fn law_other_headers_count(
    h: Header,
    headers: Seq<Header>,
    floats: Seq<(String, FloatReading)>,
)
    ensures
        ({
            let all = seq![h] + headers;
            &&& holds_text(lowered(h.name@), "userinfo"@) && trimmed(h.value@).len() > 0 && userinfo(
                trimmed(h.value@),
                floats,
            ) is Some ==> any_userinfo(all, floats) == userinfo(trimmed(h.value@), floats)
            &&& !holds_text(lowered(h.name@), "userinfo"@) ==> any_userinfo(all, floats)
                == any_userinfo(headers, floats)
        }),
        any_userinfo(Seq::empty(), floats) is None,
{
    let all = seq![h] + headers;
    assert(all[0] == h);
    assert(all.drop_first() =~= headers);
}

/// Only the first 32 lines of a text are looked at.
pub proof fn law_quotas_are_near_the_start(content: Seq<char>)
    ensures
        head_lines(content).len() <= 32,
        text_lines(content).len() <= 32 ==> head_lines(content) == text_lines(content),
        text_lines(content).len() > 32 ==> head_lines(content).len() == 32,
{
    assert(text_lines(content).take(text_lines(content).len() as int) =~= text_lines(content));
}

/// A size is a number and a unit; a sign in front does not count.
pub proof fn law_sizes_are_read(num: Seq<char>, unit: Seq<char>)
    requires
        num.len() > 0,
        forall|i: int| 0 <= i < num.len() ==> '0' <= #[trigger] num[i] <= '9' || num[i] == '.',
        forall|i: int| 0 <= i < unit.len() ==> 'a' <= #[trigger] unit[i] <= 'z',
    ensures
        unit_power(unit) matches Some(p) ==> size_written(num + unit) == Some((num, p))
            && size_written(seq!['-'] + num + unit) == Some((num, p)) && size_written(
            seq!['+'] + num + unit,
        ) == Some((num, p)),
        unit_power(unit) is None ==> size_written(num + unit) is None,
{
    let s = num + unit;
    assert forall|i: int| 0 <= i < s.len() implies #[trigger] s[i] != ',' && !is_space(s[i]) by {
        if i < num.len() {
            assert(s[i] == num[i]);
        } else {
            assert(s[i] == unit[i - num.len()]);
        }
    }
    lemma_size(s, s, num, unit);
    let m = seq!['-'] + num + unit;
    assert forall|i: int| 0 <= i < m.len() implies #[trigger] m[i] != ',' && !is_space(m[i]) by {
        if i > 0 {
            assert(m[i] == s[i - 1]);
        }
    }
    assert(m.skip(1) =~= s);
    lemma_size(m, s, num, unit);
    let p = seq!['+'] + num + unit;
    assert forall|i: int| 0 <= i < p.len() implies #[trigger] p[i] != ',' && !is_space(p[i]) by {
        if i > 0 {
            assert(p[i] == s[i - 1]);
        }
    }
    assert(p.skip(1) =~= s);
    lemma_size(p, s, num, unit);
}

proof fn lemma_size(whole: Seq<char>, s: Seq<char>, num: Seq<char>, unit: Seq<char>)
    requires
        num.len() > 0,
        forall|i: int| 0 <= i < num.len() ==> '0' <= #[trigger] num[i] <= '9' || num[i] == '.',
        forall|i: int| 0 <= i < unit.len() ==> 'a' <= #[trigger] unit[i] <= 'z',
        s == num + unit,
        whole == s || ((whole.len() == s.len() + 1 && (whole[0] == '-' || whole[0] == '+'))
            && whole.skip(1) == s),
        forall|i: int| 0 <= i < whole.len() ==> #[trigger] whole[i] != ',' && !is_space(whole[i]),
    ensures
        unit_power(unit) matches Some(p) ==> size_written(whole) == Some((num, p)),
        unit_power(unit) is None ==> size_written(whole) is None,
{
    assert(!is_space(whole[0]) && !is_space(whole[whole.len() - 1]));
    lemma_trimmed_same(whole);
    assert(!whole.contains(','));
    crate::laws::texts::lemma_without_char(whole, ',');
    let n = after_sign(whole);
    assert(s[0] == num[0]);
    assert(n == s);
    // It says no more than a number in front.
    reveal_strlit("无限");
    reveal_strlit("无限制");
    reveal_strlit("∞");
    reveal_strlit("unlimited");
    assert(whole[0] == '-' || whole[0] == '+' || whole[0] == num[0]);
    assert(lowered(whole)[0] == whole[0]);
    assert(lowered("unlimited"@)[0] == 'u');
    assert(!unlimited(whole)) by {
        assert("无限"@[0] != whole[0] && "无限制"@[0] != whole[0] && "∞"@[0] != whole[0]);
        if lowered(whole) == lowered("unlimited"@) {
            assert(lowered(whole)[0] == 'u');
        }
    }
    lemma_number_stops(s, num.len() as int);
    assert(s.skip(num.len() as int) =~= unit);
    assert(s.take(num.len() as int) =~= num);
    if unit.len() > 0 {
        assert(!is_space(unit[0]) && !is_space(unit[unit.len() - 1]));
    }
    lemma_trimmed_same(unit);
    assert(lowered(unit) =~= unit);
    assert(!unit.contains(' '));
    crate::laws::texts::lemma_without_char(unit, ' ');
}

proof fn lemma_number_stops(s: Seq<char>, k: int)
    requires
        0 <= k <= s.len(),
        forall|i: int| 0 <= i < k ==> '0' <= #[trigger] s[i] <= '9' || s[i] == '.',
        k < s.len() ==> !('0' <= s[k] <= '9') && s[k] != '.',
    ensures
        number_end(s) == k,
    decreases k,
{
    if k > 0 {
        let t = s.drop_first();
        assert forall|i: int| 0 <= i < k - 1 implies '0' <= #[trigger] t[i] <= '9' || t[i] == '.' by {
            assert(t[i] == s[i + 1]);
        }
        lemma_number_stops(t, k - 1);
        assert('0' <= s[0] <= '9' || s[0] == '.');
    }
}

} // verus!

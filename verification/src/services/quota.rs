//! Traffic quotas: read from headers, comments and the names of nodes.

use crate::domain::subscription::{known, no_traffic, SubscriptionTraffic};
use crate::text::{
    after_char, before_char, chars_of, concat3, contains, has_prefix, holds_text, is_digit, join,
    joined, lines, lower, lowered, min_int, one_of, opt_view, parse_i64, parse_u64, parsed_i64,
    parsed_u64, pieces, remove_char, replace_char, replaced, same, same_ignoring_case, separators,
    split, split_once, split_words, starts_with, strip_prefix, text_lines, trim, trim_end_by,
    trim_end_set, trim_start_by, trim_start_set, trimmed, views, without_char, words,
};
use vstd::prelude::*;

verus! {

/// What a text reads as, taken for a floating-point number.
#[derive(Debug, Clone, Copy, PartialEq, Eq, Structural)]
pub struct FloatReading {
    /// Rounded; 0 where the number is negative.
    pub rounded: u64,
    /// Cut off behind the point.
    pub truncated: i64,
}

/// The reading of a text, where the table has one: the first that it has.
pub open spec fn reading_of<A>(table: Seq<(String, A)>, text: Seq<char>) -> Option<A>
    decreases table.len(),
{
    if table.len() == 0 {
        None
    } else if table[0].0@ == text {
        Some(table[0].1)
    } else {
        reading_of(table.drop_first(), text)
    }
}

fn find_reading<A: Copy>(table: &Vec<(String, A)>, text: &str) -> (r: Option<A>)
    ensures
        r == reading_of(table@, text@),
{
    let mut i: usize = 0;
    proof {
        assert(table@.skip(0) =~= table@);
    }
    while i < table.len()
        invariant
            i <= table.len(),
            reading_of(table@, text@) == reading_of(table@.skip(i as int), text@),
        decreases table.len() - i,
    {
        proof {
            assert(table@.skip(i as int)[0] == table@[i as int]);
            assert(table@.skip(i as int).drop_first() =~= table@.skip(i + 1));
        }
        if same(table[i].0.as_str(), text) {
            return Some(table[i].1);
        }
        i += 1;
    }
    None
}

// ---------------------------------------------------------------------------
// `subscription-userinfo`
// ---------------------------------------------------------------------------
pub open spec fn quotes() -> spec_fn(char) -> bool {
    one_of(seq!['"', '\''])
}

/// A text without quotation marks at its ends.
pub open spec fn unquoted(s: Seq<char>) -> Seq<char> {
    trim_end_by(trim_start_by(s, quotes()), quotes())
}

pub fn unquote(s: &str) -> (r: &str)
    ensures
        r@ == unquoted(s@),
{
    let set: [char; 2] = ['"', '\''];
    proof {
        assert(set@ =~= seq!['"', '\'']);
    }
    trim_end_set(trim_start_set(s, &set), &set)
}

/// The key and the value of a part `key=value`: the key in small letters, the value
/// without quotation marks.
pub open spec fn key_value(part: Seq<char>) -> Option<(Seq<char>, Seq<char>)> {
    let p = trimmed(part);
    if p.contains('=') {
        Some(
            (
                lowered(trimmed(before_char(p, '='))),
                trimmed(unquoted(trimmed(after_char(p, '=')))),
            ),
        )
    } else {
        None
    }
}

/// The value of a part `key=value`.
pub open spec fn part_value(part: Seq<char>) -> Seq<char> {
    match key_value(part) {
        Some((_, val)) => val,
        None => Seq::empty(),
    }
}

/// A number that counts bytes: an integer, or a floating-point number rounded.
pub open spec fn count_of(val: Seq<char>, floats: Seq<(String, FloatReading)>) -> Option<u64> {
    match parsed_u64(val) {
        Some(n) => Some(n),
        None => match reading_of(floats, val) {
            Some(f) => Some(f.rounded),
            None => None,
        },
    }
}

/// A moment: an integer, or a floating-point number cut off.
pub open spec fn moment_of(val: Seq<char>, floats: Seq<(String, FloatReading)>) -> Option<i64> {
    match parsed_i64(val) {
        Some(n) => Some(n),
        None => match reading_of(floats, val) {
            Some(f) => Some(f.truncated),
            None => None,
        },
    }
}

/// What is known once one more part was read.
pub open spec fn with_part(
    t: SubscriptionTraffic,
    part: Seq<char>,
    floats: Seq<(String, FloatReading)>,
) -> SubscriptionTraffic {
    match key_value(part) {
        Some((key, val)) => {
            if key == "upload"@ {
                SubscriptionTraffic { upload: count_of(val, floats), ..t }
            } else if key == "download"@ {
                SubscriptionTraffic { download: count_of(val, floats), ..t }
            } else if key == "total"@ {
                SubscriptionTraffic { total: count_of(val, floats), ..t }
            } else if key == "expire"@ {
                SubscriptionTraffic { expire: moment_of(val, floats), ..t }
            } else {
                t
            }
        },
        None => t,
    }
}

pub open spec fn with_parts(
    parts: Seq<Seq<char>>,
    floats: Seq<(String, FloatReading)>,
) -> SubscriptionTraffic
    decreases parts.len(),
{
    if parts.len() == 0 {
        no_traffic()
    } else {
        with_part(with_parts(parts.drop_last(), floats), parts.last(), floats)
    }
}

/// The parts of a list `key=value; key=value`, with semicolons or commas.
pub open spec fn userinfo_parts(raw: Seq<char>) -> Seq<Seq<char>> {
    pieces(replaced(raw, ',', ';'), ';')
}

/// What a list `upload=…; download=…; total=…; expire=…` says.
pub open spec fn userinfo(raw: Seq<char>, floats: Seq<(String, FloatReading)>) -> Option<
    SubscriptionTraffic,
> {
    known(with_parts(userinfo_parts(raw), floats))
}

fn split_key_value(part: &str) -> (r: Option<(String, String)>)
    ensures
        match r {
            Some((k, v)) => key_value(part@) == Some((k@, v@)),
            None => key_value(part@) is None,
        },
{
    match split_once(trim(part), '=') {
        Some((k, v)) => Some((lower(trim(k)), trim(unquote(trim(v))).to_owned())),
        None => None,
    }
}

fn read_count(val: &str, floats: &Vec<(String, FloatReading)>) -> (r: Option<u64>)
    ensures
        r == count_of(val@, floats@),
{
    match parse_u64(val) {
        Some(n) => Some(n),
        None => match find_reading(floats, val) {
            Some(f) => Some(f.rounded),
            None => None,
        },
    }
}

fn read_moment(val: &str, floats: &Vec<(String, FloatReading)>) -> (r: Option<i64>)
    ensures
        r == moment_of(val@, floats@),
{
    match parse_i64(val) {
        Some(n) => Some(n),
        None => match find_reading(floats, val) {
            Some(f) => Some(f.truncated),
            None => None,
        },
    }
}

/// Reads a list `upload=…; download=…; total=…; expire=…`, in bytes and Unix seconds.
/// Values that are no integers are looked up in `floats`, which holds what they read
/// as, taken for floating-point numbers.
pub fn parse_userinfo_str(raw: &str, floats: &Vec<(String, FloatReading)>) -> (r: Option<
    SubscriptionTraffic,
>)
    ensures
        r == userinfo(raw@, floats@),
{
    let text = replace_char(raw, ',', ';');
    let parts = split(text.as_str(), ';');
    let ghost models = userinfo_parts(raw@);
    let mut traffic = SubscriptionTraffic::default();
    for i in 0..parts.len()
        invariant
            models == views(parts@),
            traffic == with_parts(models.take(i as int), floats@),
    {
        let ghost whole = models.take(i + 1);
        proof {
            assert(whole.drop_last() =~= models.take(i as int));
            assert(whole.last() == parts@[i as int]@);
        }
        if let Some((key, val)) = split_key_value(parts[i].as_str()) {
            let k = key.as_str();
            if same(k, "upload") {
                traffic.upload = read_count(val.as_str(), floats);
            } else if same(k, "download") {
                traffic.download = read_count(val.as_str(), floats);
            } else if same(k, "total") {
                traffic.total = read_count(val.as_str(), floats);
            } else if same(k, "expire") {
                traffic.expire = read_moment(val.as_str(), floats);
            }
        }
    }
    proof {
        assert(models.take(models.len() as int) =~= models);
    }
    if traffic.is_empty() {
        None
    } else {
        Some(traffic)
    }
}

/// The values in a list `key=value; key=value`: those that `parse_userinfo_str` may
/// look up.
pub fn userinfo_values(raw: &str) -> (r: Vec<String>)
    ensures
        forall|i: int|
            #![trigger userinfo_parts(raw@)[i]]
            0 <= i < userinfo_parts(raw@).len() && key_value(userinfo_parts(raw@)[i]) is Some
                ==> views(r@).contains(part_value(userinfo_parts(raw@)[i])),
{
    let text = replace_char(raw, ',', ';');
    let parts = split(text.as_str(), ';');
    let ghost models = userinfo_parts(raw@);
    let mut out: Vec<String> = Vec::new();
    for i in 0..parts.len()
        invariant
            models == views(parts@),
            forall|j: int|
                #![trigger models[j]]
                0 <= j < i && key_value(models[j]) is Some ==> views(out@).contains(
                    part_value(models[j]),
                ),
    {
        proof {
            assert(models[i as int] == parts@[i as int]@);
        }
        if let Some((_, val)) = split_key_value(parts[i].as_str()) {
            let ghost before = views(out@);
            let ghost v = val@;
            out.push(val);
            proof {
                assert(views(out@) =~= before.push(v));
                assert(views(out@)[before.len() as int] == v);
                assert forall|j: int|
                    #![trigger models[j]]
                    0 <= j < i + 1 && key_value(models[j]) is Some implies views(out@).contains(
                    part_value(models[j]),
                ) by {
                    if j < i {
                        let k = choose|k: int|
                            0 <= k < before.len() && before[k] == part_value(models[j]);
                        assert(views(out@)[k] == before[k]);
                    }
                }
            }
        }
    }
    out
}

/// A header of a response: its name in small letters, and its value.
#[derive(Debug, Clone)]
pub struct Header {
    pub name: String,
    pub value: String,
}

/// The values of the headers of that name that are not blank, in their order.
pub open spec fn values_named(headers: Seq<Header>, name: Seq<char>) -> Seq<Seq<char>>
    decreases headers.len(),
{
    if headers.len() == 0 {
        Seq::empty()
    } else {
        let before = values_named(headers.drop_last(), name);
        let h = headers.last();
        if h.name@ == name && trimmed(h.value@).len() > 0 {
            before.push(trimmed(h.value@))
        } else {
            before
        }
    }
}

/// What the headers of one name say together.
pub open spec fn named_userinfo(
    headers: Seq<Header>,
    name: Seq<char>,
    floats: Seq<(String, FloatReading)>,
) -> Option<SubscriptionTraffic> {
    let values = values_named(headers, name);
    if values.len() == 0 {
        None
    } else {
        userinfo(joined(values, "; "@), floats)
    }
}

/// What the first header says whose name holds `userinfo`, and which says anything.
pub open spec fn any_userinfo(headers: Seq<Header>, floats: Seq<(String, FloatReading)>) -> Option<
    SubscriptionTraffic,
>
    decreases headers.len(),
{
    if headers.len() == 0 {
        None
    } else {
        let h = headers[0];
        let here = if holds_text(lowered(h.name@), "userinfo"@) && trimmed(h.value@).len() > 0 {
            userinfo(trimmed(h.value@), floats)
        } else {
            None
        };
        if here is Some {
            here
        } else {
            any_userinfo(headers.drop_first(), floats)
        }
    }
}

/// What the headers of a response say of the quota: those of the usual names first,
/// then any whose name holds `userinfo`.
pub open spec fn header_userinfo(
    headers: Seq<Header>,
    floats: Seq<(String, FloatReading)>,
) -> Option<SubscriptionTraffic> {
    let a = named_userinfo(headers, "subscription-userinfo"@, floats);
    let b = named_userinfo(headers, "x-subscription-userinfo"@, floats);
    let c = named_userinfo(headers, "subscription-user-info"@, floats);
    if a is Some {
        a
    } else if b is Some {
        b
    } else if c is Some {
        c
    } else {
        any_userinfo(headers, floats)
    }
}

fn named_traffic(
    headers: &Vec<Header>,
    name: &str,
    floats: &Vec<(String, FloatReading)>,
) -> (r: Option<SubscriptionTraffic>)
    ensures
        r == named_userinfo(headers@, name@, floats@),
{
    let mut values: Vec<String> = Vec::new();
    proof {
        assert(views(values@) =~= values_named(headers@.take(0), name@));
    }
    for i in 0..headers.len()
        invariant
            views(values@) == values_named(headers@.take(i as int), name@),
    {
        let ghost whole = headers@.take(i + 1);
        let ghost before = values@;
        proof {
            assert(whole.drop_last() =~= headers@.take(i as int));
        }
        if same(headers[i].name.as_str(), name) {
            let value = trim(headers[i].value.as_str());
            if !value.is_empty() {
                values.push(value.to_owned());
                proof {
                    assert(views(values@) =~= views(before).push(value@));
                }
            }
        }
    }
    proof {
        assert(headers@.take(headers@.len() as int) =~= headers@);
    }
    if values.len() == 0 {
        None
    } else {
        let raw = join(&values, "; ");
        parse_userinfo_str(raw.as_str(), floats)
    }
}

/// Reads the quota from the headers of a response.
pub fn parse_subscription_userinfo(
    headers: &Vec<Header>,
    floats: &Vec<(String, FloatReading)>,
) -> (r: Option<SubscriptionTraffic>)
    ensures
        r == header_userinfo(headers@, floats@),
{
    let a = named_traffic(headers, "subscription-userinfo", floats);
    if a.is_some() {
        return a;
    }
    let b = named_traffic(headers, "x-subscription-userinfo", floats);
    if b.is_some() {
        return b;
    }
    let c = named_traffic(headers, "subscription-user-info", floats);
    if c.is_some() {
        return c;
    }
    let mut i: usize = 0;
    proof {
        assert(headers@.skip(0) =~= headers@);
    }
    while i < headers.len()
        invariant
            i <= headers.len(),
            a is None,
            b is None,
            c is None,
            a == named_userinfo(headers@, "subscription-userinfo"@, floats@),
            b == named_userinfo(headers@, "x-subscription-userinfo"@, floats@),
            c == named_userinfo(headers@, "subscription-user-info"@, floats@),
            any_userinfo(headers@, floats@) == any_userinfo(headers@.skip(i as int), floats@),
        decreases headers.len() - i,
    {
        proof {
            assert(headers@.skip(i as int)[0] == headers@[i as int]);
            assert(headers@.skip(i as int).drop_first() =~= headers@.skip(i + 1));
        }
        let name = lower(headers[i].name.as_str());
        if contains(name.as_str(), "userinfo") {
            let value = trim(headers[i].value.as_str());
            if !value.is_empty() {
                let t = parse_userinfo_str(value, floats);
                if t.is_some() {
                    return t;
                }
            }
        }
        i += 1;
    }
    None
}

/// What a line of a configuration is, where quotas may stand in comments.
pub enum CommentLine {
    /// A line that no quota stands in.
    Other,
    /// A comment that may hold a quota.
    Quota(Seq<char>),
    /// The first line of the configuration itself.
    Start,
}

pub open spec fn mentions_quota(body: Seq<char>) -> bool {
    let low = lowered(body);
    ||| holds_text(low, "upload="@)
    ||| holds_text(low, "download="@)
    ||| holds_text(low, "total="@)
    ||| holds_text(low, "expire="@)
}

pub open spec fn starts_config(line: Seq<char>) -> bool {
    ||| has_prefix(line, "proxies"@)
    ||| has_prefix(line, "port:"@)
    ||| has_prefix(line, "mixed-port"@)
    ||| has_prefix(line, "---"@)
}

pub open spec fn comment_line(raw: Seq<char>) -> CommentLine {
    let line = trimmed(raw);
    if line.len() == 0 {
        CommentLine::Other
    } else if line[0] == '#' {
        let body = trimmed(trim_end_by(trimmed(line.skip(1)), one_of(seq![';'])));
        if body.len() > 0 && mentions_quota(body) {
            CommentLine::Quota(body)
        } else {
            CommentLine::Other
        }
    } else if starts_config(line) {
        CommentLine::Start
    } else {
        CommentLine::Other
    }
}

/// The first quota in the comments of the lines, before the configuration starts.
pub open spec fn comment_userinfo(
    lines: Seq<Seq<char>>,
    floats: Seq<(String, FloatReading)>,
) -> Option<SubscriptionTraffic>
    decreases lines.len(),
{
    if lines.len() == 0 {
        None
    } else {
        match comment_line(lines[0]) {
            CommentLine::Start => None,
            CommentLine::Quota(body) if userinfo(body, floats) is Some => userinfo(body, floats),
            _ => comment_userinfo(lines.drop_first(), floats),
        }
    }
}

/// The lines in which quotas are looked for.
pub open spec fn head_lines(content: Seq<char>) -> Seq<Seq<char>> {
    let all = text_lines(content);
    all.take(min_int(all.len() as int, 32))
}

/// Reads the quota from a comment at the start of a configuration, such as
/// `# upload=…; download=…; total=…; expire=…`: from its first 32 lines, and not
/// behind the start of the configuration itself.
pub fn parse_userinfo_from_content(content: &str, floats: &Vec<(String, FloatReading)>) -> (r:
    Option<SubscriptionTraffic>)
    ensures
        r == comment_userinfo(head_lines(content@), floats@),
{
    let all = lines(content);
    let ghost models = head_lines(content@);
    let n: usize = if all.len() < 32 {
        all.len()
    } else {
        32
    };
    let mut i: usize = 0;
    proof {
        assert(models.skip(0) =~= models);
    }
    while i < n
        invariant
            i <= n <= all.len(),
            models == views(all@).take(n as int),
            comment_userinfo(head_lines(content@), floats@) == comment_userinfo(
                models.skip(i as int),
                floats@,
            ),
        decreases n - i,
    {
        proof {
            assert(models.skip(i as int)[0] == all@[i as int]@);
            assert(models.skip(i as int).drop_first() =~= models.skip(i + 1));
        }
        let line = trim(all[i].as_str());
        if !line.is_empty() {
            if line.get_char(0) == '#' {
                let len: usize = line.unicode_len();
                proof {
                    assert(line@.subrange(1, len as int) =~= line@.skip(1));
                }
                let set: [char; 1] = [';'];
                proof {
                    assert(set@ =~= seq![';']);
                }
                let body = trim(trim_end_set(trim(line.substring_char(1, len)), &set));
                if !body.is_empty() {
                    let low = lower(body);
                    let l = low.as_str();
                    if contains(l, "upload=") || contains(l, "download=") || contains(l, "total=")
                        || contains(l, "expire=") {
                        let t = parse_userinfo_str(body, floats);
                        if t.is_some() {
                            return t;
                        }
                    }
                }
            } else if starts_with(line, "proxies") || starts_with(line, "port:") || starts_with(
                line,
                "mixed-port",
            ) || starts_with(line, "---") {
                return None;
            }
        }
        i += 1;
    }
    None
}

// ---------------------------------------------------------------------------
// Names of nodes that carry a quota
// ---------------------------------------------------------------------------
pub const REMAINING_LABELS: [&'static str; 6] = [
    "剩余流量",
    "流量剩余",
    "剩余额度",
    "余量",
    "流量余量",
    "剩余",
];

pub const USED_LABELS: [&'static str; 4] = ["已用流量", "已使用流量", "已用", "已使用"];

pub const TOTAL_LABELS: [&'static str; 4] = ["总流量", "套餐流量", "流量总量", "总量"];

pub const EXPIRE_LABELS: [&'static str; 9] = [
    "套餐到期",
    "到期时间",
    "过期时间",
    "到期日",
    "有效期至",
    "有效期",
    "到期",
    "Expire",
    "expire",
];

pub open spec fn label_gap() -> spec_fn(char) -> bool {
    one_of(seq!['：', ':', ' ', '\t', '-', '—'])
}

/// What follows a label, bare or in brackets.
pub open spec fn after_label(name: Seq<char>, label: Seq<char>) -> Option<Seq<char>> {
    let wide = "【"@ + label + "】"@;
    let square = "["@ + label + "]"@;
    if has_prefix(name, label) {
        Some(trim_start_by(name.skip(label.len() as int), label_gap()))
    } else if has_prefix(name, wide) {
        Some(trimmed(name.skip(wide.len() as int)))
    } else if has_prefix(name, square) {
        Some(trimmed(name.skip(square.len() as int)))
    } else {
        None
    }
}

/// What follows the first of the labels that the name starts with.
pub open spec fn after_labels(name: Seq<char>, labels: Seq<&'static str>) -> Option<Seq<char>>
    decreases labels.len(),
{
    if labels.len() == 0 {
        None
    } else if after_label(name, labels[0]@) is Some {
        after_label(name, labels[0]@)
    } else {
        after_labels(name, labels.drop_first())
    }
}

/// What follows the first of the labels that the name starts with.
pub fn strip_label(name: &str, labels: &[&'static str]) -> (r: Option<String>)
    ensures
        opt_view(r) == after_labels(name@, labels@),
{
    let mut i: usize = 0;
    proof {
        assert(labels@.skip(0) =~= labels@);
    }
    while i < labels.len()
        invariant
            i <= labels.len(),
            after_labels(name@, labels@) == after_labels(name@, labels@.skip(i as int)),
        decreases labels.len() - i,
    {
        proof {
            assert(labels@.skip(i as int)[0] == labels@[i as int]);
            assert(labels@.skip(i as int).drop_first() =~= labels@.skip(i + 1));
        }
        let label = labels[i];
        if let Some(rest) = strip_prefix(name, label) {
            let gap: [char; 6] = ['：', ':', ' ', '\t', '-', '—'];
            proof {
                assert(gap@ =~= seq!['：', ':', ' ', '\t', '-', '—']);
            }
            return Some(trim_start_set(rest, &gap).to_owned());
        }
        let wide = concat3("【", label, "】");
        if let Some(rest) = strip_prefix(name, wide.as_str()) {
            return Some(trim(rest).to_owned());
        }
        let square = concat3("[", label, "]");
        if let Some(rest) = strip_prefix(name, square.as_str()) {
            return Some(trim(rest).to_owned());
        }
        i += 1;
    }
    None
}

pub open spec fn unlimited(s: Seq<char>) -> bool {
    let t = trimmed(s);
    ||| t == "无限"@
    ||| t == "无限制"@
    ||| lowered(t) == lowered("unlimited"@)
    ||| t == "∞"@
}

pub fn is_unlimited_text(s: &str) -> (r: bool)
    ensures
        r == unlimited(s@),
{
    let t = trim(s);
    same(t, "无限") || same(t, "无限制") || same_ignoring_case(t, "unlimited") || same(t, "∞")
}

pub open spec fn info_label(name: Seq<char>) -> bool {
    let n = trimmed(name);
    ||| n == "官网"@
    ||| n == "官方网站"@
    ||| n == "更新"@
    ||| n == "更新订阅"@
    ||| n == "公告"@
    ||| n == "说明"@
    ||| n == "教程"@
    ||| n == "测速"@
    ||| n == "Traffic"@
    ||| n == "Expire"@
    ||| has_prefix(n, "官网"@)
    ||| has_prefix(n, "http://"@)
    ||| has_prefix(n, "https://"@)
}

/// Whether a name is a notice rather than the name of a node.
pub fn is_pure_info_label(name: &str) -> (r: bool)
    ensures
        r == info_label(name@),
{
    let n = trim(name);
    same(n, "官网") || same(n, "官方网站") || same(n, "更新") || same(n, "更新订阅") || same(
        n,
        "公告",
    ) || same(n, "说明") || same(n, "教程") || same(n, "测速") || same(n, "Traffic") || same(
        n,
        "Expire",
    ) || starts_with(n, "官网") || starts_with(n, "http://") || starts_with(n, "https://")
}

/// The power of 1024 that a unit stands for.
pub open spec fn unit_power(unit: Seq<char>) -> Option<u32> {
    if unit.len() == 0 || unit == "b"@ || unit == "byte"@ || unit == "bytes"@ {
        Some(0)
    } else if unit == "k"@ || unit == "kb"@ || unit == "kib"@ {
        Some(1)
    } else if unit == "m"@ || unit == "mb"@ || unit == "mib"@ {
        Some(2)
    } else if unit == "g"@ || unit == "gb"@ || unit == "gib"@ {
        Some(3)
    } else if unit == "t"@ || unit == "tb"@ || unit == "tib"@ {
        Some(4)
    } else if unit == "p"@ || unit == "pb"@ || unit == "pib"@ {
        Some(5)
    } else {
        None
    }
}

/// A character of a number.
pub open spec fn number_char(c: char) -> bool {
    is_digit(c) || c == '.'
}

/// Where the number at the start of a text ends.
pub open spec fn number_end(s: Seq<char>) -> int
    decreases s.len(),
{
    if s.len() == 0 || !number_char(s[0]) {
        0
    } else {
        1 + number_end(s.drop_first())
    }
}

pub open spec fn after_sign(s: Seq<char>) -> Seq<char> {
    if s.len() > 0 && (s[0] == '+' || s[0] == '-') {
        s.skip(1)
    } else {
        s
    }
}

/// The number and the unit of a size such as `2.41 TB`: the number as it is written,
/// without its sign, and the power of 1024 that it counts.
pub open spec fn size_written(s: Seq<char>) -> Option<(Seq<char>, u32)> {
    let t = without_char(trimmed(s), ',');
    let n = after_sign(t);
    let k = number_end(n);
    if t.len() == 0 || unlimited(t) || k == 0 {
        None
    } else {
        match unit_power(without_char(lowered(trimmed(n.skip(k))), ' ')) {
            Some(p) => Some((n.take(k), p)),
            None => None,
        }
    }
}

proof fn lemma_number_end(s: Seq<char>, k: int)
    requires
        0 <= k <= s.len(),
        forall|j: int| 0 <= j < k ==> number_char(#[trigger] s[j]),
        k < s.len() ==> !number_char(s[k]),
    ensures
        number_end(s) == k,
    decreases k,
{
    if k > 0 {
        let t = s.drop_first();
        assert forall|j: int| 0 <= j < k - 1 implies number_char(#[trigger] t[j]) by {
            assert(t[j] == s[j + 1]);
        }
        lemma_number_end(t, k - 1);
    }
}

/// The number and the unit of a size such as `2.41 TB`, `1000G` or `512 MB`.
pub fn size_parts(s: &str) -> (r: Option<(String, u32)>)
    ensures
        match r {
            Some((n, p)) => size_written(s@) == Some((n@, p)),
            None => size_written(s@) is None,
        },
{
    let text = remove_char(trim(s), ',');
    let t = text.as_str();
    if t.is_empty() || is_unlimited_text(t) {
        return None;
    }
    let v = chars_of(t);
    let start: usize = if v[0] == '+' || v[0] == '-' {
        1
    } else {
        0
    };
    let ghost n = after_sign(t@);
    proof {
        assert(n =~= t@.skip(start as int));
    }
    let mut i: usize = start;
    while i < v.len() && (('0' <= v[i] && v[i] <= '9') || v[i] == '.')
        invariant
            v@ == t@,
            start <= i <= v.len(),
            n == t@.skip(start as int),
            forall|j: int| 0 <= j < i - start ==> number_char(#[trigger] n[j]),
        decreases v.len() - i,
    {
        i += 1;
    }
    proof {
        lemma_number_end(n, i - start);
    }
    if i == start {
        return None;
    }
    let number = t.substring_char(start, i);
    let rest = t.substring_char(i, v.len());
    proof {
        assert(number@ =~= n.take(i - start));
        assert(rest@ =~= n.skip(i - start));
    }
    let low = lower(trim(rest));
    let unit = remove_char(low.as_str(), ' ');
    let u = unit.as_str();
    let power: u32 = if u.is_empty() || same(u, "b") || same(u, "byte") || same(u, "bytes") {
        0
    } else if same(u, "k") || same(u, "kb") || same(u, "kib") {
        1
    } else if same(u, "m") || same(u, "mb") || same(u, "mib") {
        2
    } else if same(u, "g") || same(u, "gb") || same(u, "gib") {
        3
    } else if same(u, "t") || same(u, "tb") || same(u, "tib") {
        4
    } else if same(u, "p") || same(u, "pb") || same(u, "pib") {
        5
    } else {
        return None;
    };
    Some((number.to_owned(), power))
}

/// The days from 1970-01-01 to a day, by the Gregorian calendar. Years are counted
/// from March, so that a leap day ends one.
pub open spec fn civil_days(y: int, m: int, d: int) -> int {
    let year = if m <= 2 {
        y - 1
    } else {
        y
    };
    let month = if m > 2 {
        m - 3
    } else {
        m + 9
    };
    365 * year + year / 4 - year / 100 + year / 400 + (153 * month + 2) / 5 + d - 1 - 719468
}

/// The days from 1970-01-01 to a day; `None` where the month or the day is out of
/// range.
pub fn days_from_civil(y: i32, m: i32, d: i32) -> (r: Option<i64>)
    ensures
        r == if m < 1 || m > 12 || d < 1 || d > 31 {
            None
        } else {
            Some(civil_days(y as int, m as int, d as int) as i64)
        },
        r is Some ==> r->0 == civil_days(y as int, m as int, d as int),
{
    if m < 1 || m > 12 || d < 1 || d > 31 {
        return None;
    }
    let year: i64 = if m <= 2 {
        y as i64 - 1
    } else {
        y as i64
    };
    // Shifted by a multiple of 400 years, so that no division meets a negative number.
    let shifted: i64 = year + 2_147_484_000;
    let era: i64 = shifted / 400;
    let yoe: i64 = shifted % 400;
    let month: i64 = if m > 2 {
        m as i64 - 3
    } else {
        m as i64 + 9
    };
    let doy: i64 = (153 * month + 2) / 5 + d as i64 - 1;
    let doe: i64 = yoe * 365 + yoe / 4 - yoe / 100 + doy;
    proof {
        let e = era - 5_368_710;
        assert(2_147_484_000 == 400 * 5_368_710);
        assert(year == 400 * e + yoe);
        assert(year / 4 == 100 * e + yoe / 4);
        assert(year / 100 == 4 * e + yoe / 100);
        assert(year / 400 == e);
    }
    Some((era - 5_368_710) * 146_097 + doe - 719_468)
}

pub open spec fn leap(y: int) -> bool {
    y % 4 == 0 && (y % 100 != 0 || y % 400 == 0)
}

pub open spec fn month_length(y: int, m: int) -> int {
    if m == 2 {
        if leap(y) {
            29
        } else {
            28
        }
    } else if m == 4 || m == 6 || m == 9 || m == 11 {
        30
    } else {
        31
    }
}

/// The count of days follows the calendar: it starts at 1970-01-01, months have their
/// lengths, and the day after the last of December is the first of January.
pub proof fn law_days_follow_the_calendar(y: int, m: int, d: int)
    requires
        1 <= m <= 12,
    ensures
        civil_days(1970, 1, 1) == 0,
        civil_days(y, m, d + 1) == civil_days(y, m, d) + 1,
        m < 12 ==> civil_days(y, m + 1, 1) == civil_days(y, m, 1) + month_length(y, m),
        civil_days(y + 1, 1, 1) == civil_days(y, 12, 1) + 31,
{
    assert(civil_days(1970, 1, 1) == 0);
    if m == 2 {
        lemma_february(y);
    } else if m == 1 {
        assert(civil_days(y, 2, 1) == civil_days(y, 1, 1) + 31);
    } else if m < 12 {
        lemma_months_from_march(y, m);
    }
}

proof fn lemma_months_from_march(y: int, m: int)
    requires
        3 <= m < 12,
    ensures
        civil_days(y, m + 1, 1) == civil_days(y, m, 1) + month_length(y, m),
{
    let a = (153 * (m - 3) + 2) / 5;
    let b = (153 * (m - 2) + 2) / 5;
    assert(civil_days(y, m + 1, 1) - civil_days(y, m, 1) == b - a);
    assert(m == 3 || m == 4 || m == 5 || m == 6 || m == 7 || m == 8 || m == 9 || m == 10 || m
        == 11);
}

proof fn lemma_division_step(y: int)
    ensures
        y / 4 - (y - 1) / 4 == if y % 4 == 0 {
            1int
        } else {
            0
        },
        y / 100 - (y - 1) / 100 == if y % 100 == 0 {
            1int
        } else {
            0
        },
        y / 400 - (y - 1) / 400 == if y % 400 == 0 {
            1int
        } else {
            0
        },
{
}

proof fn lemma_february(y: int)
    ensures
        civil_days(y, 3, 1) == civil_days(y, 2, 1) + month_length(y, 2),
{
    lemma_division_step(y);
    let p = y - 1;
    assert(civil_days(y, 2, 1) == 365 * p + p / 4 - p / 100 + p / 400 + 337 + 1 - 1 - 719468);
    assert(civil_days(y, 3, 1) == 365 * y + y / 4 - y / 100 + y / 400 + 0 + 1 - 1 - 719468);
    assert(y % 400 == 0 ==> y % 100 == 0);
    assert(y % 100 == 0 ==> y % 4 == 0);
}

/// The date at the start of a text: the text up to white space, with slashes and
/// points made dashes.
pub open spec fn date_part(s: Seq<char>) -> Seq<char> {
    let n = replaced(replaced(trimmed(s), '/', '-'), '.', '-');
    let w = words(n, separators(false));
    if w.len() > 0 {
        w[0]
    } else {
        n
    }
}

/// The moment that a text names: Unix seconds, or the start of a day.
pub open spec fn moment_named(s: Seq<char>) -> Option<i64> {
    match parsed_i64(trimmed(s)) {
        Some(n) if n > 1_000_000_000 => Some(n),
        _ => {
            let parts = pieces(date_part(s), '-');
            if parts.len() < 3 {
                None
            } else {
                match (parsed_i64(parts[0]), parsed_i64(parts[1]), parsed_i64(parts[2])) {
                    (Some(y), Some(m), Some(d)) => {
                        if 1970 <= y <= 2100 && 1 <= m <= 12 && 1 <= d <= 31 {
                            Some((civil_days(y as int, m as int, d as int) * 86400) as i64)
                        } else {
                            None
                        }
                    },
                    _ => None,
                }
            }
        },
    }
}

/// The moment that a text names: Unix seconds, or a day such as `2030-01-31`, with
/// dashes, slashes or points; what follows the day is left out.
pub fn parse_expire_timestamp(s: &str) -> (r: Option<i64>)
    ensures
        r == moment_named(s@),
{
    let t = trim(s);
    if let Some(n) = parse_i64(t) {
        if n > 1_000_000_000 {
            return Some(n);
        }
    }
    let dashed = replace_char(replace_char(t, '/', '-').as_str(), '.', '-');
    let w = split_words(dashed.as_str(), false);
    let ghost models = words(dashed@, separators(false));
    proof {
        if models.len() > 0 {
            assert(w@[0]@ == models[0]);
        }
    }
    let date: &str = if w.len() > 0 {
        w[0].as_str()
    } else {
        dashed.as_str()
    };
    let parts = split(date, '-');
    let ghost pm = pieces(date@, '-');
    if parts.len() < 3 {
        return None;
    }
    proof {
        assert(parts@[0]@ == pm[0]);
        assert(parts@[1]@ == pm[1]);
        assert(parts@[2]@ == pm[2]);
    }
    match (parse_i64(parts[0].as_str()), parse_i64(parts[1].as_str()), parse_i64(
        parts[2].as_str(),
    )) {
        (Some(y), Some(m), Some(d)) => {
            if 1970 <= y && y <= 2100 && 1 <= m && m <= 12 && 1 <= d && d <= 31 {
                match days_from_civil(y as i32, m as i32, d as i32) {
                    Some(days) => {
                        proof {
                            lemma_days_bounded(y as int, m as int, d as int);
                        }
                        Some(days * 86400)
                    },
                    None => None,
                }
            } else {
                None
            }
        },
        _ => None,
    }
}

proof fn lemma_days_bounded(y: int, m: int, d: int)
    requires
        1970 <= y <= 2100,
        1 <= m <= 12,
        1 <= d <= 31,
    ensures
        -1000 <= civil_days(y, m, d) <= 100_000,
{
}

/// What a name says once it is taken for a notice; `None` where it is the name of a
/// node.
pub open spec fn remark(raw: Seq<char>, sizes: Seq<(String, u64)>) -> Option<Remark> {
    let name = trimmed(raw);
    let left = after_labels(name, REMAINING_LABELS@);
    let used = after_labels(name, USED_LABELS@);
    let total = after_labels(name, TOTAL_LABELS@);
    let until = after_labels(name, EXPIRE_LABELS@);
    if name.len() == 0 {
        None
    } else if left is Some && reading_of(sizes, left->0) is Some {
        Some(Remark::Left(reading_of(sizes, left->0)->0))
    } else if left is Some && unlimited(left->0) {
        Some(Remark::Nothing)
    } else if used is Some && reading_of(sizes, used->0) is Some {
        Some(Remark::Used(reading_of(sizes, used->0)->0))
    } else if total is Some && reading_of(sizes, total->0) is Some {
        Some(Remark::Total(reading_of(sizes, total->0)->0))
    } else if total is Some && unlimited(total->0) {
        Some(Remark::Nothing)
    } else if until is Some {
        let end = trimmed(until->0);
        if end.len() == 0 {
            Some(Remark::Nothing)
        } else {
            match moment_named(end) {
                Some(ts) => Some(Remark::Ends(ts)),
                None => Some(Remark::EndsAs(end)),
            }
        }
    } else if english_notice(lowered(name)) {
        Some(
            Remark::English {
                left: if says_left(lowered(name)) && after_colon(name) is Some {
                    reading_of(sizes, after_colon(name)->0)
                } else {
                    None
                },
                ends: if holds_text(lowered(name), "expire"@) {
                    after_colon(name)
                } else {
                    None
                },
            },
        )
    } else if info_label(name) {
        Some(Remark::Nothing)
    } else {
        None
    }
}

/// What a notice in the place of a node's name says.
pub enum Remark {
    Nothing,
    Left(u64),
    Used(u64),
    Total(u64),
    Ends(i64),
    EndsAs(Seq<char>),
    English { left: Option<u64>, ends: Option<Seq<char>> },
}

pub open spec fn english_notice(low: Seq<char>) -> bool {
    ||| holds_text(low, "traffic reset"@)
    ||| holds_text(low, "package expired"@)
    ||| has_prefix(low, "expire"@)
    ||| holds_text(low, "remaining traffic"@)
    ||| holds_text(low, "traffic remaining"@)
}

pub open spec fn says_left(low: Seq<char>) -> bool {
    holds_text(low, "remaining"@) || holds_text(low, "left"@)
}

/// What follows the first colon, narrow or wide.
pub open spec fn after_colon(name: Seq<char>) -> Option<Seq<char>> {
    let narrow = replaced(name, '：', ':');
    if narrow.contains(':') {
        Some(trimmed(name.skip(crate::text::char_pos(narrow, ':') + 1)))
    } else {
        None
    }
}

/// The text of an end that is new.
pub open spec fn text_known(before: Option<Seq<char>>, text: Seq<char>) -> Option<Seq<char>> {
    if before is Some {
        before
    } else {
        Some(text)
    }
}

/// A quota, with the end's text taken by its view.
pub struct TrafficModel {
    pub upload: Option<u64>,
    pub download: Option<u64>,
    pub total: Option<u64>,
    pub quota_remaining: Option<u64>,
    pub expire: Option<i64>,
    pub expire_text: Option<Seq<char>>,
}

impl View for SubscriptionTraffic {
    type V = TrafficModel;

    open spec fn view(&self) -> TrafficModel {
        TrafficModel {
            upload: self.upload,
            download: self.download,
            total: self.total,
            quota_remaining: self.quota_remaining,
            expire: self.expire,
            expire_text: opt_view(self.expire_text),
        }
    }
}

/// What is known of the quota once a notice was read: only what was not known before
/// is new.
pub open spec fn noted(t: TrafficModel, r: Remark) -> TrafficModel {
    match r {
        Remark::Nothing => t,
        Remark::Left(n) => if t.quota_remaining is None {
            TrafficModel { quota_remaining: Some(n), ..t }
        } else {
            t
        },
        Remark::Used(n) => if t.download is None && t.upload is None {
            TrafficModel { download: Some(n), ..t }
        } else {
            t
        },
        Remark::Total(n) => if t.total is None {
            TrafficModel { total: Some(n), ..t }
        } else {
            t
        },
        Remark::Ends(ts) => if t.expire is None {
            TrafficModel { expire: Some(ts), ..t }
        } else {
            t
        },
        Remark::EndsAs(text) => TrafficModel { expire_text: text_known(t.expire_text, text), ..t },
        Remark::English { left, ends } => TrafficModel {
            quota_remaining: if t.quota_remaining is None {
                left
            } else {
                t.quota_remaining
            },
            expire_text: match ends {
                Some(text) => text_known(t.expire_text, text),
                None => t.expire_text,
            },
            ..t
        },
    }
}

fn colon_rest(name: &str) -> (r: Option<String>)
    ensures
        opt_view(r) == after_colon(name@),
{
    let v = chars_of(name);
    let ghost narrow = replaced(name@, '：', ':');
    let mut i: usize = 0;
    while i < v.len()
        invariant
            v@ == name@,
            i <= v.len(),
            narrow == replaced(name@, '：', ':'),
            forall|j: int| 0 <= j < i ==> narrow[j] != ':',
        decreases v.len() - i,
    {
        if v[i] == ':' || v[i] == '：' {
            proof {
                assert(narrow[i as int] == ':');
                crate::text::lemma_char_pos_is(narrow, ':', i as int);
                crate::text::lemma_char_pos(narrow, ':');
                assert(name@.subrange(i + 1, v.len() as int) =~= name@.skip(i + 1));
            }
            return Some(trim(name.substring_char(i + 1, v.len())).to_owned());
        }
        i += 1;
    }
    None
}

/// Whether the name is a notice rather than the name of a node. What it says of the
/// quota is added to `traffic`, as far as that was not known. Sizes are looked up in
/// `sizes`, which holds the bytes that the texts of `remark_size_texts` stand for.
pub fn apply_remark_name(
    name: &str,
    traffic: &mut SubscriptionTraffic,
    sizes: &Vec<(String, u64)>,
) -> (r: bool)
    ensures
        r == (remark(name@, sizes@) is Some),
        final(traffic)@ == match remark(name@, sizes@) {
            Some(m) => noted(old(traffic)@, m),
            None => old(traffic)@,
        },
{
    let name = trim(name);
    if name.is_empty() {
        return false;
    }
    proof {
        crate::text::lemma_trimmed_twice(name@);
    }
    if let Some(rest) = strip_label(name, &REMAINING_LABELS) {
        if let Some(bytes) = find_reading(sizes, rest.as_str()) {
            if traffic.quota_remaining.is_none() {
                traffic.quota_remaining = Some(bytes);
            }
            return true;
        }
        if is_unlimited_text(rest.as_str()) {
            return true;
        }
    }
    if let Some(rest) = strip_label(name, &USED_LABELS) {
        if let Some(bytes) = find_reading(sizes, rest.as_str()) {
            if traffic.download.is_none() && traffic.upload.is_none() {
                traffic.download = Some(bytes);
            }
            return true;
        }
    }
    if let Some(rest) = strip_label(name, &TOTAL_LABELS) {
        if let Some(bytes) = find_reading(sizes, rest.as_str()) {
            if traffic.total.is_none() {
                traffic.total = Some(bytes);
            }
            return true;
        }
        if is_unlimited_text(rest.as_str()) {
            return true;
        }
    }
    if let Some(rest) = strip_label(name, &EXPIRE_LABELS) {
        let end = trim(rest.as_str());
        if end.is_empty() {
            return true;
        }
        match parse_expire_timestamp(end) {
            Some(ts) => {
                if traffic.expire.is_none() {
                    traffic.expire = Some(ts);
                }
            },
            None => {
                if traffic.expire_text.is_none() {
                    traffic.expire_text = Some(end.to_owned());
                }
            },
        }
        return true;
    }
    let low = lower(name);
    let l = low.as_str();
    if contains(l, "traffic reset") || contains(l, "package expired") || starts_with(l, "expire")
        || contains(l, "remaining traffic") || contains(l, "traffic remaining") {
        if let Some(rest) = colon_rest(name) {
            if let Some(bytes) = find_reading(sizes, rest.as_str()) {
                if traffic.quota_remaining.is_none() && (contains(l, "remaining") || contains(
                    l,
                    "left",
                )) {
                    traffic.quota_remaining = Some(bytes);
                }
            }
            if traffic.expire_text.is_none() && contains(l, "expire") {
                traffic.expire_text = Some(rest);
            }
        }
        return true;
    }
    is_pure_info_label(name)
}

/// The texts of a name whose sizes `apply_remark_name` may look up.
pub fn remark_size_texts(name: &str) -> (r: Vec<String>)
    ensures
        after_labels(trimmed(name@), REMAINING_LABELS@) is Some ==> views(r@).contains(
            after_labels(trimmed(name@), REMAINING_LABELS@)->0,
        ),
        after_labels(trimmed(name@), USED_LABELS@) is Some ==> views(r@).contains(
            after_labels(trimmed(name@), USED_LABELS@)->0,
        ),
        after_labels(trimmed(name@), TOTAL_LABELS@) is Some ==> views(r@).contains(
            after_labels(trimmed(name@), TOTAL_LABELS@)->0,
        ),
        after_colon(trimmed(name@)) is Some ==> views(r@).contains(after_colon(trimmed(name@))->0),
{
    let name = trim(name);
    let mut out: Vec<String> = Vec::new();
    push_text(&mut out, strip_label(name, &REMAINING_LABELS));
    push_text(&mut out, strip_label(name, &USED_LABELS));
    push_text(&mut out, strip_label(name, &TOTAL_LABELS));
    push_text(&mut out, colon_rest(name));
    out
}

fn push_text(out: &mut Vec<String>, text: Option<String>)
    ensures
        text is Some ==> views(final(out)@).contains(text->0@),
        forall|s: Seq<char>| views(old(out)@).contains(s) ==> views(final(out)@).contains(s),
{
    let ghost before = views(out@);
    if let Some(t) = text {
        let ghost v = t@;
        out.push(t);
        proof {
            assert(views(out@) =~= before.push(v));
            assert(views(out@)[before.len() as int] == v);
            assert forall|s: Seq<char>| before.contains(s) implies views(out@).contains(s) by {
                let k = choose|k: int| 0 <= k < before.len() && before[k] == s;
                assert(views(out@)[k] == s);
            }
        }
    }
}

/// Whether the name is a notice rather than the name of a node.
pub fn is_remark_name(name: &str, sizes: &Vec<(String, u64)>) -> (r: bool)
    ensures
        r == (remark(name@, sizes@) is Some),
{
    let mut traffic = SubscriptionTraffic::default();
    apply_remark_name(name, &mut traffic, sizes)
}

} // verus!

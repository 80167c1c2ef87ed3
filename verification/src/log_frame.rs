//! Frames of the core's log.

use crate::json::{json_skipped, json_text, skipped_at, text_at};
use crate::text::{opt_view, same};
use vstd::prelude::*;
use vstd::slice::slice_subrange;
use vstd::utf8::encode_utf8;

verus! {

/// A frame of the log: `{"type": "warning", "payload": "a line"}`.
#[derive(Debug, Clone, PartialEq, Eq)]
pub struct LogFrame {
    pub level: String,
    pub payload: String,
}

impl View for LogFrame {
    type V = (Seq<char>, Seq<char>);

    open spec fn view(&self) -> (Seq<char>, Seq<char>) {
        (self.level@, self.payload@)
    }
}

pub open spec fn frame_view(f: Option<LogFrame>) -> Option<(Seq<char>, Seq<char>)> {
    match f {
        Some(x) => Some(x@),
        None => None,
    }
}

/// A member of an object: its name, and its value where that is a text.
#[derive(Debug)]
pub struct FrameMember {
    pub name: String,
    pub text: Option<String>,
}

pub type MemberModel = (Seq<char>, Option<Seq<char>>);

impl View for FrameMember {
    type V = MemberModel;

    open spec fn view(&self) -> MemberModel {
        (self.name@, opt_view(self.text))
    }
}

pub open spec fn member_views(v: Seq<FrameMember>) -> Seq<MemberModel> {
    Seq::new(v.len(), |i: int| v[i]@)
}

// ---------------------------------------------------------------------------
// What a frame says
// ---------------------------------------------------------------------------
pub open spec fn is_named(name: Seq<char>) -> spec_fn(MemberModel) -> bool {
    |m: MemberModel| m.0 == name
}

/// The text of the one member of that name; nothing where there is none, where there are
/// several, or where its value is no text.
pub open spec fn sole_text_of(members: Seq<MemberModel>, name: Seq<char>) -> Option<Seq<char>> {
    let named = members.filter(is_named(name));
    if named.len() == 1 {
        named[0].1
    } else {
        None
    }
}

/// The frame that members make: one `type` and one `payload`, both texts, and whatever else.
pub open spec fn frame_of(members: Seq<MemberModel>) -> Option<(Seq<char>, Seq<char>)> {
    match (sole_text_of(members, "type"@), sole_text_of(members, "payload"@)) {
        (Some(level), Some(payload)) => Some((level, payload)),
        _ => None,
    }
}

fn sole_text(members: &Vec<FrameMember>, name: &str) -> (r: Option<String>)
    ensures
        opt_view(r) == sole_text_of(member_views(members@), name@),
{
    let ghost all = member_views(members@);
    let ghost keep = is_named(name@);
    let mut count: usize = 0;
    let mut found: Option<&FrameMember> = None;
    proof {
        reveal(Seq::filter);
        assert(all.take(0).filter(keep) =~= Seq::empty());
    }
    for i in 0..members.len()
        invariant
            all == member_views(members@),
            keep == is_named(name@),
            count <= i,
            count == all.take(i as int).filter(keep).len(),
            count > 0 ==> found is Some && found->0@ == all.take(i as int).filter(keep).last(),
    {
        proof {
            reveal(Seq::filter);
            assert(all.take(i + 1).drop_last() =~= all.take(i as int));
            assert(all.take(i + 1).last() == members@[i as int]@);
        }
        if same(members[i].name.as_str(), name) {
            found = Some(&members[i]);
            count = count + 1;
        }
    }
    proof {
        assert(all.take(members@.len() as int) =~= all);
    }
    if count != 1 {
        return None;
    }
    match found {
        Some(m) => match &m.text {
            Some(t) => Some(t.clone()),
            None => None,
        },
        None => None,
    }
}

/// Reads the frame that members make.
pub fn frame_of_members(members: &Vec<FrameMember>) -> (r: Option<LogFrame>)
    ensures
        frame_view(r) == frame_of(member_views(members@)),
{
    match (sole_text(members, "type"), sole_text(members, "payload")) {
        (Some(level), Some(payload)) => Some(LogFrame { level, payload }),
        _ => None,
    }
}

// ---------------------------------------------------------------------------
// How a frame is written
// ---------------------------------------------------------------------------
pub const QUOTE: u8 = 34;

pub const COMMA: u8 = 44;

pub const COLON: u8 = 58;

pub const LIST_OPENS: u8 = 91;

pub const LIST_CLOSES: u8 = 93;

pub const OBJECT_OPENS: u8 = 123;

pub const OBJECT_CLOSES: u8 = 125;

/// A space, a tabulator, or the end of a line.
pub open spec fn is_blank(c: u8) -> bool {
    c == 32 || c == 9 || c == 10 || c == 13
}

/// Where the blanks end that stand at `at`.
pub open spec fn past_blanks(b: Seq<u8>, at: int) -> int
    decreases b.len() - at,
{
    if 0 <= at < b.len() && is_blank(b[at]) {
        past_blanks(b, at + 1)
    } else {
        at
    }
}

pub open spec fn is_at(b: Seq<u8>, at: int, c: u8) -> bool {
    0 <= at < b.len() && b[at] == c
}

/// The text that is written at `at`, and where it ends.
pub open spec fn text_from(b: Seq<u8>, at: int) -> Option<(Seq<char>, int)> {
    match json_text(b.subrange(at, b.len() as int)) {
        Some((s, n)) if 0 < n <= b.len() - at => Some((s, at + n)),
        _ => None,
    }
}

/// Where the value ends that is written at `at`.
pub open spec fn value_end(b: Seq<u8>, at: int) -> Option<int> {
    match json_skipped(b.subrange(at, b.len() as int)) {
        Some(n) if 0 < n <= b.len() - at => Some(at + n),
        _ => None,
    }
}

/// The name that is written at `at`, and where the value behind its colon begins.
pub open spec fn name_from(b: Seq<u8>, at: int) -> Option<(Seq<char>, int)> {
    if !is_at(b, at, QUOTE) {
        None
    } else {
        match text_from(b, at) {
            Some((name, end)) if is_at(b, past_blanks(b, end), COLON) => Some(
                (name, past_blanks(b, end) + 1),
            ),
            _ => None,
        }
    }
}

/// Where the next member begins: behind a comma, but for the first.
pub open spec fn member_start(b: Seq<u8>, at: int, first: bool) -> Option<int> {
    let i = past_blanks(b, at);
    if first {
        Some(i)
    } else if is_at(b, i, COMMA) {
        Some(past_blanks(b, i + 1))
    } else {
        None
    }
}

/// The member that is written at `at`, and where it ends.
pub open spec fn member_from(b: Seq<u8>, at: int) -> Option<(MemberModel, int)> {
    match name_from(b, at) {
        Some((name, value)) => match value_end(b, value) {
            Some(end) => {
                let text = match text_from(b, value) {
                    Some((s, _)) => Some(s),
                    None => None,
                };
                Some(((name, text), end))
            },
            None => None,
        },
        None => None,
    }
}

proof fn lemma_past_blanks(b: Seq<u8>, at: int)
    ensures
        at <= past_blanks(b, at),
        0 <= at <= b.len() ==> past_blanks(b, at) <= b.len(),
    decreases b.len() - at,
{
    if 0 <= at < b.len() && is_blank(b[at]) {
        lemma_past_blanks(b, at + 1);
    }
}

proof fn lemma_member_ends_behind(b: Seq<u8>, at: int)
    requires
        member_from(b, at) is Some,
    ensures
        at < (member_from(b, at)->0).1 <= b.len(),
{
    let end = (text_from(b, at)->0).1;
    lemma_past_blanks(b, end);
}

/// The members of an object from `at` up to its end, behind those that were read, and where
/// it ends.
pub open spec fn members_from(
    b: Seq<u8>,
    at: int,
    first: bool,
    read: Seq<MemberModel>,
) -> Option<(Seq<MemberModel>, int)>
    decreases b.len() - at,
    via members_end
{
    if is_at(b, past_blanks(b, at), OBJECT_CLOSES) {
        Some((read, past_blanks(b, at) + 1))
    } else {
        match member_start(b, at, first) {
            Some(start) => match member_from(b, start) {
                Some((m, end)) => members_from(b, end, false, read.push(m)),
                None => None,
            },
            None => None,
        }
    }
}

#[via_fn]
proof fn members_end(b: Seq<u8>, at: int, first: bool, read: Seq<MemberModel>) {
    lemma_past_blanks(b, at);
    lemma_past_blanks(b, past_blanks(b, at) + 1);
    if let Some(start) = member_start(b, at, first) {
        if member_from(b, start) is Some {
            lemma_member_ends_behind(b, start);
        }
    }
}

/// The two texts of a list from `at` up to its end, and where it ends.
pub open spec fn pair_from(b: Seq<u8>, at: int) -> Option<((Seq<char>, Seq<char>), int)> {
    match text_from(b, at) {
        Some((one, e)) if is_at(b, past_blanks(b, e), COMMA) => match text_from(
            b,
            past_blanks(b, e) + 1,
        ) {
            Some((two, f)) if is_at(b, past_blanks(b, f), LIST_CLOSES) => Some(
                ((one, two), past_blanks(b, f) + 1),
            ),
            _ => None,
        },
        _ => None,
    }
}

/// The frame that bytes write, with nothing but blanks around it: an object with a `type`
/// and a `payload`, each once, or a list of the two. The values of other members are passed
/// over, whatever they hold.
pub open spec fn frame_in(b: Seq<u8>) -> Option<(Seq<char>, Seq<char>)> {
    let i = past_blanks(b, 0);
    if is_at(b, i, OBJECT_OPENS) {
        match members_from(b, i + 1, true, Seq::empty()) {
            Some((members, end)) if past_blanks(b, end) == b.len() => frame_of(members),
            _ => None,
        }
    } else if is_at(b, i, LIST_OPENS) {
        match pair_from(b, i + 1) {
            Some((pair, end)) if past_blanks(b, end) == b.len() => Some(pair),
            _ => None,
        }
    } else {
        None
    }
}

fn skip_blanks(b: &[u8], at: usize) -> (r: usize)
    requires
        at <= b@.len(),
    ensures
        r == past_blanks(b@, at as int),
        at <= r <= b@.len(),
{
    let mut i: usize = at;
    while i < b.len() && (b[i] == 32 || b[i] == 9 || b[i] == 10 || b[i] == 13)
        invariant
            at <= i <= b@.len(),
            past_blanks(b@, i as int) == past_blanks(b@, at as int),
        decreases b@.len() - i,
    {
        i = i + 1;
    }
    i
}

fn found_at(b: &[u8], at: usize, c: u8) -> (r: bool)
    ensures
        r == is_at(b@, at as int, c),
        r ==> at < usize::MAX,
{
    at < b.len() && b[at] == c
}

fn read_text(b: &[u8], at: usize) -> (r: Option<(String, usize)>)
    requires
        at <= b@.len(),
    ensures
        match r {
            Some((s, end)) => text_from(b@, at as int) == Some((s@, end as int)),
            None => text_from(b@, at as int) is None,
        },
        r is Some ==> at < (r->0).1 <= b@.len(),
{
    match text_at(slice_subrange(b, at, b.len())) {
        Some((s, n)) => Some((s, at + n)),
        None => None,
    }
}

fn read_past(b: &[u8], at: usize) -> (r: Option<usize>)
    requires
        at <= b@.len(),
    ensures
        match r {
            Some(end) => value_end(b@, at as int) == Some(end as int),
            None => value_end(b@, at as int) is None,
        },
        r is Some ==> at < r->0 <= b@.len(),
{
    match skipped_at(slice_subrange(b, at, b.len())) {
        Some(n) => Some(at + n),
        None => None,
    }
}

fn read_name(b: &[u8], at: usize) -> (r: Option<(String, usize)>)
    requires
        at <= b@.len(),
    ensures
        match r {
            Some((s, value)) => name_from(b@, at as int) == Some((s@, value as int)),
            None => name_from(b@, at as int) is None,
        },
        r is Some ==> at < (r->0).1 <= b@.len(),
{
    if !found_at(b, at, QUOTE) {
        return None;
    }
    match read_text(b, at) {
        Some((name, end)) => {
            let c: usize = skip_blanks(b, end);
            if found_at(b, c, COLON) {
                Some((name, c + 1))
            } else {
                None
            }
        },
        None => None,
    }
}

fn read_member(b: &[u8], at: usize) -> (r: Option<(FrameMember, usize)>)
    requires
        at <= b@.len(),
    ensures
        match r {
            Some((m, end)) => member_from(b@, at as int) == Some((m@, end as int)),
            None => member_from(b@, at as int) is None,
        },
        r is Some ==> at < (r->0).1 <= b@.len(),
{
    match read_name(b, at) {
        Some((name, value)) => match read_past(b, value) {
            Some(end) => {
                let text = match read_text(b, value) {
                    Some((s, _)) => Some(s),
                    None => None,
                };
                Some((FrameMember { name, text }, end))
            },
            None => None,
        },
        None => None,
    }
}

fn read_members(b: &[u8], at: usize) -> (r: Option<(Vec<FrameMember>, usize)>)
    requires
        at <= b@.len(),
    ensures
        match r {
            Some((v, end)) => members_from(b@, at as int, true, Seq::empty()) == Some(
                (member_views(v@), end as int),
            ) && end <= b@.len(),
            None => members_from(b@, at as int, true, Seq::empty()) is None,
        },
{
    let mut out: Vec<FrameMember> = Vec::new();
    let mut here: usize = at;
    let mut first: bool = true;
    proof {
        assert(member_views(out@) =~= Seq::empty());
    }
    loop
        invariant
            here <= b@.len(),
            members_from(b@, at as int, true, Seq::empty()) == members_from(
                b@,
                here as int,
                first,
                member_views(out@),
            ),
        decreases b@.len() - here,
    {
        let i: usize = skip_blanks(b, here);
        if found_at(b, i, OBJECT_CLOSES) {
            return Some((out, i + 1));
        }
        let start: usize = if first {
            i
        } else if found_at(b, i, COMMA) {
            skip_blanks(b, i + 1)
        } else {
            return None;
        };
        let (m, end) = match read_member(b, start) {
            Some(x) => x,
            None => {
                return None;
            },
        };
        let ghost before = member_views(out@);
        let ghost added = m@;
        out.push(m);
        proof {
            assert(member_views(out@) =~= before.push(added));
        }
        here = end;
        first = false;
    }
}

fn read_pair(b: &[u8], at: usize) -> (r: Option<(LogFrame, usize)>)
    requires
        at <= b@.len(),
    ensures
        match r {
            Some((f, end)) => pair_from(b@, at as int) == Some((f@, end as int)) && end <= b@.len(),
            None => pair_from(b@, at as int) is None,
        },
{
    let (level, e) = match read_text(b, at) {
        Some(x) => x,
        None => {
            return None;
        },
    };
    let c: usize = skip_blanks(b, e);
    if !found_at(b, c, COMMA) {
        return None;
    }
    let (payload, f) = match read_text(b, c + 1) {
        Some(x) => x,
        None => {
            return None;
        },
    };
    let d: usize = skip_blanks(b, f);
    if !found_at(b, d, LIST_CLOSES) {
        return None;
    }
    Some((LogFrame { level, payload }, d + 1))
}

/// Reads the frame that a text writes.
pub fn read_frame(text: &str) -> (r: Option<LogFrame>)
    ensures
        frame_view(r) == frame_in(encode_utf8(text@)),
{
    let b = text.as_bytes();
    let i: usize = skip_blanks(b, 0);
    if found_at(b, i, OBJECT_OPENS) {
        match read_members(b, i + 1) {
            Some((members, end)) => {
                if skip_blanks(b, end) == b.len() {
                    frame_of_members(&members)
                } else {
                    None
                }
            },
            None => None,
        }
    } else if found_at(b, i, LIST_OPENS) {
        match read_pair(b, i + 1) {
            Some((frame, end)) => {
                if skip_blanks(b, end) == b.len() {
                    Some(frame)
                } else {
                    None
                }
            },
            None => None,
        }
    } else {
        None
    }
}

} // verus!

//! Failures to reach a destination, read off the log of the core.

use crate::domain::node::{node_tag, outbound_tag};
use crate::log_frame::{frame_in, frame_view, read_frame, LogFrame};
use crate::storage::AppStore;
use crate::text::{
    all_digits, before_char, ends_with, find, find_pos, has_prefix, has_suffix, last_at, lemma_char_pos,
    is_digit, lemma_rfind_pos, lower, lowered, occurs_at, one_of, opt_view, rfind, rfind_pos, same,
    split_once, starts_with, strip_prefix, trim, trim_end_by, trim_end_set, trim_start_by,
    trim_start_set, trimmed,
};
use vstd::prelude::*;
use vstd::utf8::encode_utf8;

verus! {

/// Milliseconds between two looks for a core whose log can be read.
pub const IDLE_MS: u64 = 1000;

/// Milliseconds before a lost log is opened again.
pub const RECONNECT_MS: u64 = 2000;

/// Milliseconds that a read of the log waits.
pub const READ_TIMEOUT_MS: u64 = 500;

/// A failure to reach a destination.
#[derive(Debug, Clone, PartialEq, Eq)]
pub struct DialFailureLine {
    /// The outbound: a group, or the tag of a node.
    pub proxy: String,
    /// The destination, without its port.
    pub dest: String,
}

pub struct FailureModel {
    pub proxy: Seq<char>,
    pub dest: Seq<char>,
}

impl View for DialFailureLine {
    type V = FailureModel;

    open spec fn view(&self) -> FailureModel {
        FailureModel { proxy: self.proxy@, dest: self.dest@ }
    }
}

pub open spec fn failure_view(o: Option<DialFailureLine>) -> Option<FailureModel> {
    match o {
        Some(l) => Some(l@),
        None => None,
    }
}

/// The text between the square brackets at its ends.
pub open spec fn without_brackets(s: Seq<char>) -> Seq<char> {
    trim_end_by(trim_start_by(s, one_of(seq!['[', ']'])), one_of(seq!['[', ']']))
}

/// The part of a destination before the last colon, where what follows is a port: digits,
/// and no second colon in front.
pub open spec fn dest_key(dest: Seq<char>) -> Seq<char> {
    match rfind_pos(dest, ":"@) {
        Some(i) => {
            let host = dest.take(i);
            let port = dest.skip(i + 1);
            if port.len() > 0 && all_digits(port) && host.len() > 0 && !has_suffix(host, ":"@) {
                without_brackets(host)
            } else {
                dest
            }
        },
        None => dest,
    }
}

fn only_digits(s: &str) -> (r: bool)
    ensures
        r == all_digits(s@),
{
    let n: usize = s.unicode_len();
    for i in 0..n
        invariant
            n == s@.len(),
            forall|j: int| 0 <= j < i ==> is_digit(#[trigger] s@[j]),
    {
        let c: char = s.get_char(i);
        if !('0' <= c && c <= '9') {
            return false;
        }
    }
    true
}

/// A destination without its port. An address without a port, which has more than one
/// colon, stays as it is.
pub fn dest_host_key(dest: &str) -> (r: String)
    ensures
        r@ == dest_key(dest@),
{
    proof {
        reveal_strlit(":");
    }
    match rfind(dest, ":") {
        Some(i) => {
            let n: usize = dest.unicode_len();
            let host = dest.substring_char(0, i);
            let port = dest.substring_char(i + 1, n);
            proof {
                assert(host@ =~= dest@.take(i as int));
                assert(port@ =~= dest@.skip(i + 1));
            }
            if !port.is_empty() && only_digits(port) && !host.is_empty() && !ends_with(host, ":") {
                let brackets = ['[', ']'];
                proof {
                    assert(brackets@ =~= seq!['[', ']']);
                }
                return trim_end_set(trim_start_set(host, &brackets), &brackets).to_owned();
            }
            dest.to_owned()
        },
        None => dest.to_owned(),
    }
}

/// The outbound that a line names: what stands before the rule, or the first word where no
/// rule is named.
pub open spec fn named_proxy(part: Seq<char>) -> Seq<char> {
    match find_pos(part, " (match "@) {
        Some(i) => trimmed(part.take(i)),
        None => trimmed(before_char(part, ' ')),
    }
}

/// What follows the words that begin a line of a failure.
pub open spec fn after_dial(payload: Seq<char>) -> Option<Seq<char>> {
    if has_prefix(payload, "[TCP] dial "@) {
        Some(payload.skip("[TCP] dial "@.len() as int))
    } else if has_prefix(payload, "[UDP] dial "@) {
        Some(payload.skip("[UDP] dial "@.len() as int))
    } else {
        None
    }
}

/// The failure that stands in what follows the first words: the outbound, maybe the rule,
/// the source, an arrow, the destination and the error.
pub open spec fn failure_in(rest: Seq<char>) -> Option<FailureModel> {
    match find_pos(rest, " error: "@) {
        None => None,
        Some(e) => {
            let head = rest.take(e);
            match rfind_pos(head, " --> "@) {
                None => None,
                Some(a) => {
                    let proxy = named_proxy(head.take(a));
                    let dest = dest_key(trimmed(head.skip(a + 5)));
                    if proxy.len() == 0 || dest.len() == 0 {
                        None
                    } else {
                        Some(FailureModel { proxy, dest })
                    }
                },
            }
        },
    }
}

/// The failure that a line of the log tells.
pub open spec fn failure_of(payload: Seq<char>) -> Option<FailureModel> {
    match after_dial(payload) {
        Some(rest) => failure_in(rest),
        None => None,
    }
}

/// The outbound that a line names.
fn proxy_of(part: &str) -> (r: &str)
    ensures
        r@ == named_proxy(part@),
{
    match find(part, " (match ") {
        Some(i) => {
            let p = part.substring_char(0, i);
            proof {
                assert(p@ =~= part@.take(i as int));
            }
            trim(p)
        },
        None => match split_once(part, ' ') {
            Some((a, _)) => trim(a),
            None => {
                proof {
                    lemma_char_pos(part@, ' ');
                    assert(before_char(part@, ' ') =~= part@);
                }
                trim(part)
            },
        },
    }
}

/// Reads the failure that a line of the log tells.
pub fn parse_dial_failure(payload: &str) -> (r: Option<DialFailureLine>)
    ensures
        failure_view(r) == failure_of(payload@),
{
    let rest = match strip_prefix(payload, "[TCP] dial ") {
        Some(t) => t,
        None => match strip_prefix(payload, "[UDP] dial ") {
            Some(t) => t,
            None => {
                return None;
            },
        },
    };
    proof {
        reveal_strlit(" --> ");
        assert(" --> "@.len() == 5);
    }
    let e: usize = match find(rest, " error: ") {
        Some(i) => i,
        None => {
            return None;
        },
    };
    let head = rest.substring_char(0, e);
    proof {
        assert(head@ =~= rest@.take(e as int));
    }
    let a: usize = match rfind(head, " --> ") {
        Some(i) => i,
        None => {
            return None;
        },
    };
    let n: usize = head.unicode_len();
    let tail = head.substring_char(a + 5, n);
    let part = head.substring_char(0, a);
    proof {
        assert(tail@ =~= head@.skip(a + 5));
        assert(part@ =~= head@.take(a as int));
    }
    let dest = dest_host_key(trim(tail));
    let proxy = proxy_of(part);
    if proxy.is_empty() || dest.as_str().is_empty() {
        return None;
    }
    Some(DialFailureLine { proxy: proxy.to_owned(), dest })
}

/// The failure that a frame of the log tells: its level is that of a warning or an error,
/// and its text is a line of a failure.
pub open spec fn frame_failure(frame: Option<(Seq<char>, Seq<char>)>) -> Option<FailureModel> {
    match frame {
        Some((level, payload)) if lowered(level) == "warning"@ || lowered(level) == "error"@ =>
            failure_of(payload),
        _ => None,
    }
}

/// Reads the failure that a frame of the log tells.
pub fn failure_in_frame(frame: Option<LogFrame>) -> (r: Option<DialFailureLine>)
    ensures
        failure_view(r) == frame_failure(frame_view(frame)),
{
    match frame {
        Some(f) => {
            let l = lower(f.level.as_str());
            if same(l.as_str(), "warning") || same(l.as_str(), "error") {
                parse_dial_failure(f.payload.as_str())
            } else {
                None
            }
        },
        None => None,
    }
}

/// Reads the failure that the text of a frame tells.
pub fn parse_dial_failure_frame(text: &str) -> (r: Option<DialFailureLine>)
    ensures
        failure_view(r) == frame_failure(frame_in(encode_utf8(text@))),
{
    failure_in_frame(read_frame(text))
}

/// The tag of the node that a failure counts against: the node itself, or the selected one
/// where the failure is that of the main group. Failures of other outbounds count against
/// none.
pub open spec fn blamed(store: AppStore, proxy: Seq<char>) -> Option<Seq<char>> {
    if has_prefix(proxy, "node-"@) {
        Some(proxy)
    } else if proxy == "proxy"@ {
        match opt_view(store.settings.current_node_id) {
            Some(id) => if store.node_pos(id) is Some {
                Some(node_tag(id))
            } else {
                None
            },
            None => None,
        }
    } else {
        None
    }
}

/// The tag of the node that a failure counts against.
pub fn failure_tag(store: &AppStore, line: &DialFailureLine) -> (r: Option<String>)
    requires
        store.selection_can_be_cut(),
    ensures
        opt_view(r) == blamed(*store, line@.proxy),
{
    if starts_with(line.proxy.as_str(), "node-") {
        return Some(line.proxy.clone());
    }
    if !same(line.proxy.as_str(), "proxy") {
        return None;
    }
    match &store.settings.current_node_id {
        Some(id) => match store.find_node(id.as_str()) {
            Some(n) => {
                Some(outbound_tag(n))
            },
            None => None,
        },
        None => None,
    }
}

/// What to do about the log of the core.
#[derive(Debug, Clone, Copy, PartialEq, Eq, Structural)]
pub enum ListenStep {
    /// Nothing can be read; look again later.
    Idle,
    Listen,
}

/// The log is read of a mihomo core that runs and has a controller: that core does not list
/// connections that failed before they were made.
pub fn listen_step(transitioning: bool, has_api: bool, is_mihomo: bool, running: bool) -> (r:
    ListenStep)
    ensures
        r == if !transitioning && has_api && is_mihomo && running {
            ListenStep::Listen
        } else {
            ListenStep::Idle
        },
{
    if !transitioning && has_api && is_mihomo && running {
        ListenStep::Listen
    } else {
        ListenStep::Idle
    }
}

/// A host and a port make a destination whose key is the host, without the brackets that an
/// address may have.
pub proof fn law_dest_key_drops_the_port(host: Seq<char>, port: Seq<char>)
    requires
        host.len() > 0,
        host.last() != ':',
        port.len() > 0,
        all_digits(port),
    ensures
        dest_key(host + ":"@ + port) == without_brackets(host),
{
    reveal_strlit(":");
    let dest = host + ":"@ + port;
    let n = host.len() as int;
    assert(":"@.len() == 1 && ":"@[0] == ':');
    assert(dest.subrange(n, n + 1) =~= ":"@);
    assert(occurs_at(dest, ":"@, n));
    assert forall|j: int| n < j implies !occurs_at(dest, ":"@, j) by {
        if occurs_at(dest, ":"@, j) {
            assert(dest.subrange(j, j + 1)[0] == ':');
            assert(dest[j] == port[j - n - 1]);
            assert(is_digit(port[j - n - 1]));
        }
    }
    assert(last_at(dest, ":"@, n));
    lemma_rfind_pos(dest, ":"@, n);
    assert(dest.take(n) =~= host);
    assert(dest.skip(n + 1) =~= port);
    if has_suffix(host, ":"@) {
        assert(host.subrange(n - 1, n)[0] == ':');
    }
}

} // verus!

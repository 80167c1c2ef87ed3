//! The address under which the machine is seen: several services are asked, and the first
//! that answers counts.

use crate::json::{get_text, json_parsed, parse_bytes, text_field, Json, JsonModel};
use crate::remote_rule_auto::parsed_view;
use crate::text::{concat2, opt_view, trim, trimmed};
use vstd::prelude::*;
use vstd::utf8::encode_utf8;

verus! {

#[derive(Debug, Clone, PartialEq, Eq)]
pub struct ExitIpInfo {
    pub ip: String,
    pub country_code: Option<String>,
    /// The answer came through the core.
    pub via_proxy: bool,
    /// The service that answered, by its address.
    pub source: String,
}

/// A service, with the fields of its answers.
#[derive(Debug, Clone, Copy)]
pub struct Source {
    pub url: &'static str,
    pub ip_field: &'static str,
    pub country_field: &'static str,
}

/// The name under which the services are asked; some refuse bare clients.
pub const USER_AGENT: &'static str = "Mozilla/5.0 (Windows NT 10.0; Win64; x64) AppleWebKit/537.36 (KHTML, like Gecko) Chrome/126.0.0.0 Safari/537.36";

/// Milliseconds after which no answer counts any more.
pub const RACE_TIMEOUT_MS: u64 = 12000;

pub open spec fn service(i: int) -> (Seq<char>, Seq<char>, Seq<char>) {
    if i == 0 {
        ("https://api.ip.sb/geoip"@, "ip"@, "country_code"@)
    } else if i == 1 {
        ("https://ipwho.is/"@, "ip"@, "country_code"@)
    } else if i == 2 {
        ("http://ip-api.com/json"@, "query"@, "countryCode"@)
    } else {
        ("https://api.myip.com"@, "ip"@, "cc"@)
    }
}

/// The services that are asked.
pub fn sources() -> (r: Vec<Source>)
    ensures
        r@.len() == 4,
        forall|i: int|
            0 <= i < 4 ==> ((#[trigger] r@[i]).url@, r@[i].ip_field@, r@[i].country_field@)
                == service(i),
{
    let mut v: Vec<Source> = Vec::new();
    v.push(
        Source {
            url: "https://api.ip.sb/geoip",
            ip_field: "ip",
            country_field: "country_code",
        },
    );
    v.push(
        Source { url: "https://ipwho.is/", ip_field: "ip", country_field: "country_code" },
    );
    v.push(
        Source {
            url: "http://ip-api.com/json",
            ip_field: "query",
            country_field: "countryCode",
        },
    );
    v.push(Source { url: "https://api.myip.com", ip_field: "ip", country_field: "cc" });
    v
}

/// The address and the country that a parsed answer gives: none without an address.
pub open spec fn answer_of(
    parsed: Result<JsonModel, Seq<char>>,
    ip_field: Seq<char>,
    country_field: Seq<char>,
) -> Option<(Seq<char>, Option<Seq<char>>)> {
    match parsed {
        Err(_) => None,
        Ok(v) => match text_field(v, ip_field) {
            Some(ip) if trimmed(ip).len() > 0 => Some(
                (
                    trimmed(ip),
                    match text_field(v, country_field) {
                        Some(c) if trimmed(c).len() > 0 => Some(trimmed(c)),
                        _ => None,
                    },
                ),
            ),
            _ => None,
        },
    }
}

pub open spec fn answer_view(r: Option<(String, Option<String>)>) -> Option<
    (Seq<char>, Option<Seq<char>>),
> {
    match r {
        Some((ip, c)) => Some((ip@, opt_view(c))),
        None => None,
    }
}

/// Reads the address and the country off a parsed answer.
pub fn read_answer(source: &Source, parsed: Result<Json, String>) -> (r: Option<
    (String, Option<String>),
>)
    ensures
        answer_view(r) == answer_of(
            parsed_view(parsed),
            source.ip_field@,
            source.country_field@,
        ),
{
    let v = match parsed {
        Ok(v) => v,
        Err(_) => {
            return None;
        },
    };
    let ip = match get_text(&v, source.ip_field) {
        Some(s) => trim(s),
        None => {
            return None;
        },
    };
    if ip.is_empty() {
        return None;
    }
    let country = match get_text(&v, source.country_field) {
        Some(s) => {
            let c = trim(s);
            if c.is_empty() {
                None
            } else {
                Some(c.to_owned())
            }
        },
        None => None,
    };
    Some((ip.to_owned(), country))
}

/// Reads the address and the country off an answer.
pub fn parse_source(source: &Source, body: &str) -> (r: Option<(String, Option<String>)>)
    ensures
        answer_view(r) == answer_of(
            json_parsed(encode_utf8(body@)),
            source.ip_field@,
            source.country_field@,
        ),
{
    read_answer(source, parse_bytes(body.as_bytes()))
}

/// What is said of an answer that could not be read.
pub fn unparsable(source: &Source) -> (r: String)
    ensures
        r@ == source.url@ + ": unparsable answer"@,
{
    concat2(source.url, ": unparsable answer")
}

/// What happens in the race of the services.
#[derive(Debug)]
pub enum RaceEvent {
    Answered { url: String, ip: String, country: Option<String> },
    Failed(String),
    /// The time is over, or no service is left.
    Over,
}

#[derive(Debug)]
pub enum RaceStep {
    Won(ExitIpInfo),
    Wait,
    Lost(String),
}

/// The race of the services.
#[derive(Debug)]
pub struct Race {
    pub via_proxy: bool,
    /// What the last service that failed said.
    pub last_error: String,
}

impl Race {
    pub fn new(via_proxy: bool) -> (r: Self)
        ensures
            r.via_proxy == via_proxy,
            r.last_error@ == "all exit-ip sources failed"@,
    {
        Race { via_proxy, last_error: "all exit-ip sources failed".to_owned() }
    }

    /// The first answer wins; a failure is noted, and the last one told where none wins.
    pub fn step(&mut self, ev: RaceEvent) -> (r: RaceStep)
        ensures
            match ev {
                RaceEvent::Answered { url, ip, country } => r == RaceStep::Won(
                    ExitIpInfo {
                        ip,
                        country_code: country,
                        via_proxy: old(self).via_proxy,
                        source: url,
                    },
                ) && *final(self) == *old(self),
                RaceEvent::Failed(e) => r is Wait && *final(self) == (Race {
                    last_error: e,
                    ..*old(self)
                }),
                RaceEvent::Over => r == RaceStep::Lost(old(self).last_error) && *final(self)
                    == *old(self),
            },
    {
        match ev {
            RaceEvent::Answered { url, ip, country } => RaceStep::Won(
                ExitIpInfo { ip, country_code: country, via_proxy: self.via_proxy, source: url },
            ),
            RaceEvent::Failed(e) => {
                self.last_error = e;
                RaceStep::Wait
            },
            RaceEvent::Over => RaceStep::Lost(self.last_error.clone()),
        }
    }
}

} // verus!

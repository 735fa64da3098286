//! The stateful line parser: turns timestamped `wg` output lines into
//! observations, tolerating malformed lines up to a global error cap.

use vstd::prelude::*;

use crate::iface::iface_ordinal;
use crate::iface::iface_valid;
use crate::iface::WireguardInterface;
use crate::parseutil::after_white;
use crate::parseutil::all_white;
use crate::parseutil::char_index;
use crate::parseutil::cleanwhite;
use crate::parseutil::is_all_white;
use crate::parseutil::is_white;
use crate::parseutil::key_val;
use crate::parseutil::str_eq;
use crate::parseutil::trimmed;
use crate::parseutil::white_prefix_len;
use crate::time::date_hour_of_stamp;
use crate::time::has_stamp;
use crate::time::parse_timestamp;
use crate::time::rest_of;
use crate::time::stamp_of;
use crate::time::DateHourUtc;
use crate::time::Stamp;
use crate::transfer::parse_transfer;
use crate::transfer::parse_transfer_spec;
use crate::transfer::Transfer;
use crate::transfer::TransferError;

verus! {

/// Recoverable line errors are logged up to this cap; past it the stream
/// ends with a terminal error.
pub const MAX_ERRORS: usize = 2_000_000;

/// One parsed traffic-counter reading for a single interface at a single
/// timestamp, with its derived UTC date-and-hour bucket.
#[derive(Clone, Copy, Debug, PartialEq, Eq, Structural)]
pub struct Datapoint {
    pub interface: WireguardInterface,
    pub timestamp: Stamp,
    pub date_and_hour: DateHourUtc,
    pub transfer: Transfer,
}

/// A datapoint whose byte counts can be totalled on this machine; every
/// observation the parser emits satisfies this.
pub open spec fn dp_wf(dp: Datapoint) -> bool {
    dp.transfer.received + dp.transfer.sent <= usize::MAX
}

/// How a single line can be malformed. All of these are recoverable:
/// they are reported and parsing goes on with the next line.
#[derive(Clone, Copy, Debug, PartialEq, Eq, Structural)]
pub enum ParseError {
    /// The line does not begin with a well-formed TAI64N timestamp.
    BadTimestamp,
    /// The timestamp lies outside the representable calendar range.
    TimestampOutOfRange,
    /// The line's remainder is not of `key: value` shape.
    NoKeyValue,
    /// A second `interface` arrived before an intervening `peer`.
    InterfaceAgain,
    /// The name after `interface:` is not `wg` plus an ordinal.
    BadInterfaceName,
    /// A second `peer` arrived before the previous one was resolved.
    PeerAgain,
    /// A `peer` arrived with no pending interface.
    PeerWithoutInterface,
    /// A `transfer` arrived with no pending peer.
    TransferWithoutPeer,
    /// The value after `transfer:` is malformed.
    BadTransfer(TransferError),
    /// An indented key that is not one of the recognized ones.
    UnknownIndentedKey,
    /// A zero-indent key other than `interface` or `peer`.
    UnknownKey,
}

/// What one line yields before the error cap is applied.
#[derive(Clone, Copy, Debug, PartialEq, Eq, Structural)]
pub enum StepOut {
    /// The line was blank, or only moved the parser's state along.
    Ignore,
    /// The line completed an observation.
    Obs(Datapoint),
    /// The line is malformed.
    Fail(ParseError),
}

/// What `feed_line` hands back once the error cap is applied.
#[derive(Clone, Copy, Debug, PartialEq, Eq, Structural)]
pub enum LineOutcome {
    /// Nothing to report for this line.
    Nothing,
    /// The line completed an observation.
    Observation(Datapoint),
    /// A malformed line, to be logged; parsing goes on.
    LineError(ParseError),
    /// A malformed line past the error cap: the stream must end here.
    Terminal(ParseError),
}

/// One step of the line grammar: from the pending interface and peer and
/// a line to the new pending state and what the line yields.
pub open spec fn line_step(
    iface: Option<WireguardInterface>,
    peer: Option<WireguardInterface>,
    line: Seq<char>,
) -> (Option<WireguardInterface>, Option<WireguardInterface>, StepOut) {
    if !has_stamp(line) {
        (iface, peer, StepOut::Fail(ParseError::BadTimestamp))
    } else {
        let stamp = stamp_of(line);
        let rest = rest_of(line);
        if all_white(rest) {
            (iface, peer, StepOut::Ignore)
        } else if char_index(rest, ':') == rest.len() {
            (iface, peer, StepOut::Fail(ParseError::NoKeyValue))
        } else {
            let key = rest.subrange(0, char_index(rest, ':'));
            let val = trimmed(rest.subrange(char_index(rest, ':') + 1, rest.len() as int));
            if key == "interface"@ {
                let parsed = if iface_valid(val) {
                    Some(WireguardInterface(iface_ordinal(val) as u16))
                } else {
                    None::<WireguardInterface>
                };
                if iface is Some {
                    (parsed, peer, StepOut::Fail(ParseError::InterfaceAgain))
                } else if parsed is Some {
                    (parsed, peer, StepOut::Ignore)
                } else {
                    (None::<WireguardInterface>, peer, StepOut::Fail(ParseError::BadInterfaceName))
                }
            } else if key == "peer"@ {
                if peer is Some {
                    (iface, peer, StepOut::Fail(ParseError::PeerAgain))
                } else {
                    match iface {
                        Some(i) => (None::<WireguardInterface>, Some(i), StepOut::Ignore),
                        None => (iface, peer, StepOut::Fail(ParseError::PeerWithoutInterface)),
                    }
                }
            } else if key.len() > 0 && is_white(key[0]) {
                let k = key.subrange(white_prefix_len(key), key.len() as int);
                if k == "public key"@ || k == "private key"@ || k == "listening port"@ || k
                    == "endpoint"@ || k == "allowed ips"@ || k == "latest handshake"@ {
                    (iface, peer, StepOut::Ignore)
                } else if k == "transfer"@ {
                    match parse_transfer_spec(val) {
                        Err(e) => (iface, peer, StepOut::Fail(ParseError::BadTransfer(e))),
                        Ok(tr) => match peer {
                            None => (iface, peer, StepOut::Fail(ParseError::TransferWithoutPeer)),
                            Some(pi) => match date_hour_of_stamp(stamp) {
                                None => (
                                    iface,
                                    None::<WireguardInterface>,
                                    StepOut::Fail(ParseError::TimestampOutOfRange),
                                ),
                                Some(dh) => (
                                    iface,
                                    None::<WireguardInterface>,
                                    StepOut::Obs(
                                        Datapoint {
                                            interface: pi,
                                            timestamp: stamp,
                                            date_and_hour: dh,
                                            transfer: tr,
                                        },
                                    ),
                                ),
                            },
                        },
                    }
                } else {
                    (iface, peer, StepOut::Fail(ParseError::UnknownIndentedKey))
                }
            } else {
                (iface, peer, StepOut::Fail(ParseError::UnknownKey))
            }
        }
    }
}

/// Law (one observation per section): from a state with nothing pending,
/// a well-formed `interface` line, `peer` line and `transfer` line yield
/// exactly one observation: no output on the first two lines, and on the
/// third an observation carrying the interface's ordinal, the third
/// line's timestamp and its derived date-and-hour bucket, and the parsed
/// transfer, whose counters are the clause numbers scaled by their byte
/// multipliers and truncated.
pub proof fn lemma_section_yields_observation(l1: Seq<char>, l2: Seq<char>, l3: Seq<char>)
    requires
        has_stamp(l1),
        char_index(rest_of(l1), ':') < rest_of(l1).len(),
        rest_of(l1).subrange(0, char_index(rest_of(l1), ':')) == "interface"@,
        iface_valid(line_val(l1)),
        has_stamp(l2),
        char_index(rest_of(l2), ':') < rest_of(l2).len(),
        rest_of(l2).subrange(0, char_index(rest_of(l2), ':')) == "peer"@,
        has_stamp(l3),
        char_index(rest_of(l3), ':') < rest_of(l3).len(),
        ({
            let key = rest_of(l3).subrange(0, char_index(rest_of(l3), ':'));
            key.len() > 0 && is_white(key[0]) && key.subrange(white_prefix_len(key), key.len() as int)
                == "transfer"@
        }),
        parse_transfer_spec(line_val(l3)) is Ok,
        date_hour_of_stamp(stamp_of(l3)) is Some,
    ensures
        ({
            let wi = WireguardInterface(iface_ordinal(line_val(l1)) as u16);
            let s1 = line_step(None::<WireguardInterface>, None::<WireguardInterface>, l1);
            let s2 = line_step(s1.0, s1.1, l2);
            let s3 = line_step(s2.0, s2.1, l3);
            &&& s1 == (Some(wi), None::<WireguardInterface>, StepOut::Ignore)
            &&& s2 == (None::<WireguardInterface>, Some(wi), StepOut::Ignore)
            &&& s3 == (
                None::<WireguardInterface>,
                None::<WireguardInterface>,
                StepOut::Obs(
                    Datapoint {
                        interface: wi,
                        timestamp: stamp_of(l3),
                        date_and_hour: date_hour_of_stamp(stamp_of(l3)).unwrap(),
                        transfer: parse_transfer_spec(line_val(l3)).unwrap(),
                    },
                ),
            )
        }),
{
    reveal_strlit("interface");
    reveal_strlit("peer");
    reveal_strlit("transfer");
    reveal_strlit("public key");
    reveal_strlit("private key");
    reveal_strlit("listening port");
    reveal_strlit("endpoint");
    reveal_strlit("allowed ips");
    reveal_strlit("latest handshake");
    let r1 = rest_of(l1);
    let r2 = rest_of(l2);
    let r3 = rest_of(l3);
    crate::parseutil::lemma_char_index(r1, ':');
    crate::parseutil::lemma_char_index(r2, ':');
    crate::parseutil::lemma_char_index(r3, ':');
    let key1 = r1.subrange(0, char_index(r1, ':'));
    assert(key1.len() == 9);
    assert(key1[0] == 'i');
    assert(key1[0] == r1[0]);
    assert(!is_white(r1[0]));
    assert(!all_white(r1));
    let key2 = r2.subrange(0, char_index(r2, ':'));
    assert(key2.len() == 4);
    assert(key2[0] == 'p');
    assert(key2[0] == r2[0]);
    assert(!is_white(r2[0]));
    assert(!all_white(r2));
    assert(key2 != "interface"@);
    let key3 = r3.subrange(0, char_index(r3, ':'));
    assert(key3[0] == r3[0]);
    assert(!all_white(r3)) by {
        assert("transfer"@.len() == 8);
        let k = key3.subrange(white_prefix_len(key3), key3.len() as int);
        assert(k.len() == 8);
        crate::parseutil::lemma_white_prefix_facts(key3);
        assert(k[0] == key3[white_prefix_len(key3)]);
        assert(!is_white(k[0]));
        assert(key3[white_prefix_len(key3)] == r3[white_prefix_len(key3)]);
    }
    assert(key3 != "interface"@) by {
        assert("interface"@[0] == 'i' && !is_white('i'));
    }
    assert(key3 != "peer"@) by {
        assert("peer"@[0] == 'p' && !is_white('p'));
    }
    let k3 = key3.subrange(white_prefix_len(key3), key3.len() as int);
    assert(k3 != "public key"@ && k3 != "private key"@ && k3 != "listening port"@ && k3
        != "allowed ips"@ && k3 != "latest handshake"@);
    assert(k3 != "endpoint"@) by {
        assert("transfer"@[0] == 't' && "endpoint"@[0] == 'e');
    }
}

/// The trimmed value after a line's first `:`.
pub open spec fn line_val(line: Seq<char>) -> Seq<char> {
    trimmed(rest_of(line).subrange(char_index(rest_of(line), ':') + 1, rest_of(line).len() as int))
}

/// Law (malformed-input recovery): a second `interface` line before an
/// intervening `peer` is a single ordering error; it opens the new
/// interface's context, so the interrupted section yields no observation
/// while the following well-formed section parses as usual.
pub proof fn lemma_interface_reopen(
    iface: Option<WireguardInterface>,
    peer: Option<WireguardInterface>,
    line: Seq<char>,
)
    requires
        iface is Some,
        has_stamp(line),
        char_index(rest_of(line), ':') < rest_of(line).len(),
        rest_of(line).subrange(0, char_index(rest_of(line), ':')) == "interface"@,
        iface_valid(trimmed(rest_of(line).subrange(
            char_index(rest_of(line), ':') + 1,
            rest_of(line).len() as int,
        ))),
    ensures
        ({
            let val = trimmed(rest_of(line).subrange(
                char_index(rest_of(line), ':') + 1,
                rest_of(line).len() as int,
            ));
            line_step(iface, peer, line) == (
                Some(WireguardInterface(iface_ordinal(val) as u16)),
                peer,
                StepOut::Fail(ParseError::InterfaceAgain),
            )
        }),
{
    let rest = rest_of(line);
    let key = rest.subrange(0, char_index(rest, ':'));
    proof_key_not_white(rest);
}

/// A line whose key is `interface` is not all whitespace.
proof fn proof_key_not_white(rest: Seq<char>)
    requires
        char_index(rest, ':') < rest.len(),
        rest.subrange(0, char_index(rest, ':')) == "interface"@,
    ensures
        !all_white(rest),
{
    reveal_strlit("interface");
    crate::parseutil::lemma_char_index(rest, ':');
    let key = rest.subrange(0, char_index(rest, ':'));
    assert(key.len() == 9);
    assert(rest.subrange(0, char_index(rest, ':'))[0] == rest[0]);
    assert(key[0] == 'i');
    assert(!is_white(rest[0]));
}

/// The stateful scanner: holds the pending interface awaiting its peer
/// section, the pending peer awaiting its transfer line, and how many
/// malformed lines have been reported so far.
pub struct LineParser {
    pub current_interface: Option<WireguardInterface>,
    pub current_peer: Option<WireguardInterface>,
    pub num_errors: usize,
}

impl LineParser {
    /// A fresh parser with nothing pending and no errors seen.
    pub fn new() -> (r: LineParser)
        ensures
            r.current_interface is None,
            r.current_peer is None,
            r.num_errors == 0,
    {
        LineParser { current_interface: None, current_peer: None, num_errors: 0 }
    }

    /// Feed one log line. The state moves as `line_step` says; a
    /// malformed line is reported as a `LineError` and counted until
    /// `MAX_ERRORS` of them have been seen, after which it comes back as
    /// `Terminal` and the stream must end.
    pub fn feed_line(&mut self, line: &str) -> (out: LineOutcome)
        ensures
            ({
                let (ni, np, so) = line_step(
                    old(self).current_interface,
                    old(self).current_peer,
                    line@,
                );
                &&& final(self).current_interface == ni
                &&& final(self).current_peer == np
                &&& match so {
                    StepOut::Ignore => final(self).num_errors == old(self).num_errors && out
                        == LineOutcome::Nothing,
                    StepOut::Obs(dp) => final(self).num_errors == old(self).num_errors && out
                        == LineOutcome::Observation(dp),
                    StepOut::Fail(e) => if old(self).num_errors < MAX_ERRORS {
                        final(self).num_errors == old(self).num_errors + 1 && out
                            == LineOutcome::LineError(e)
                    } else {
                        final(self).num_errors == old(self).num_errors && out
                            == LineOutcome::Terminal(e)
                    },
                }
            }),
    {
        let ghost pre = (self.current_interface, self.current_peer);
        let so = self.step_line(line);
        match so {
            StepOut::Ignore => LineOutcome::Nothing,
            StepOut::Obs(dp) => LineOutcome::Observation(dp),
            StepOut::Fail(e) => {
                if self.num_errors < MAX_ERRORS {
                    self.num_errors = self.num_errors + 1;
                    LineOutcome::LineError(e)
                } else {
                    LineOutcome::Terminal(e)
                }
            },
        }
    }

    /// The grammar step itself, leaving the error count alone.
    fn step_line(&mut self, line: &str) -> (so: StepOut)
        ensures
            ({
                let (ni, np, spec_so) = line_step(
                    old(self).current_interface,
                    old(self).current_peer,
                    line@,
                );
                &&& final(self).current_interface == ni
                &&& final(self).current_peer == np
                &&& final(self).num_errors == old(self).num_errors
                &&& so == spec_so
            }),
    {
        let (stamp, rest) = match parse_timestamp(line) {
            None => {
                return StepOut::Fail(ParseError::BadTimestamp);
            },
            Some(p) => p,
        };
        if is_all_white(rest) {
            return StepOut::Ignore;
        }
        let (key, rawval) = match key_val(rest) {
            None => {
                return StepOut::Fail(ParseError::NoKeyValue);
            },
            Some(kv) => kv,
        };
        let val = cleanwhite(rawval);
        if str_eq(key, "interface") {
            let parsed = match WireguardInterface::from_str(val) {
                Ok(wi) => Some(wi),
                Err(_) => None,
            };
            if self.current_interface.is_some() {
                self.current_interface = parsed;
                return StepOut::Fail(ParseError::InterfaceAgain);
            }
            match parsed {
                Some(_) => {
                    self.current_interface = parsed;
                    StepOut::Ignore
                },
                None => {
                    self.current_interface = None;
                    StepOut::Fail(ParseError::BadInterfaceName)
                },
            }
        } else if str_eq(key, "peer") {
            if self.current_peer.is_some() {
                return StepOut::Fail(ParseError::PeerAgain);
            }
            match self.current_interface {
                Some(i) => {
                    self.current_interface = None;
                    self.current_peer = Some(i);
                    StepOut::Ignore
                },
                None => StepOut::Fail(ParseError::PeerWithoutInterface),
            }
        } else {
            let k = match after_white(key) {
                None => {
                    return StepOut::Fail(ParseError::UnknownKey);
                },
                Some(k) => k,
            };
            if str_eq(k, "public key") || str_eq(k, "private key") || str_eq(k, "listening port")
                || str_eq(k, "endpoint") || str_eq(k, "allowed ips") || str_eq(
                k,
                "latest handshake",
            ) {
                StepOut::Ignore
            } else if str_eq(k, "transfer") {
                let tr = match parse_transfer(val) {
                    Err(e) => {
                        return StepOut::Fail(ParseError::BadTransfer(e));
                    },
                    Ok(tr) => tr,
                };
                let pi = match self.current_peer {
                    None => {
                        return StepOut::Fail(ParseError::TransferWithoutPeer);
                    },
                    Some(pi) => pi,
                };
                match stamp.date_and_hour_utc() {
                    None => {
                        self.current_peer = None;
                        StepOut::Fail(ParseError::TimestampOutOfRange)
                    },
                    Some(dh) => {
                        self.current_peer = None;
                        StepOut::Obs(
                            Datapoint {
                                interface: pi,
                                timestamp: stamp,
                                date_and_hour: dh,
                                transfer: tr,
                            },
                        )
                    },
                }
            } else {
                StepOut::Fail(ParseError::UnknownIndentedKey)
            }
        }
    }
}

} // verus!

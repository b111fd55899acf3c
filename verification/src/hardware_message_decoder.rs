//! Line decoder for u-blox angle-of-arrival telemetry. Each line carries one
//! of two messages: a measurement (`+UUDF:`) or a heartbeat (`+UUDFP:`).
//! The grammar is ASCII and works byte by byte; anything after a complete
//! message is ignored, as a stream may carry trailing noise.

use vstd::prelude::*;

use crate::text::{
    alnum_run_end, dec_value, digit_run_end, hex_run_end, hex_value, parse_hex12, parse_i32_dec,
    parse_u32_dec, scan_alnum_run, scan_hex_run, spec_parse_i32,
};
use vstd::slice::{slice_subrange, slice_to_vec};
use vstd::string::StringSliceAdditionalSpecFns;

verus! {

/// The grammar rule at which a decode attempt failed.
#[derive(Debug, Clone, Copy, PartialEq, Eq, Structural)]
pub enum DecodeRule {
    /// The line does not open with the expected message prefix.
    Prefix,
    /// The reporting tag id is not exactly twelve hex digits.
    TagId,
    /// The signal-strength field is not a 32-bit signed decimal.
    Rssi,
    /// The first angle field is not a 32-bit signed decimal.
    Angle1,
    /// The second angle field is not a 32-bit signed decimal.
    Angle2,
    /// The reserved field is not a 32-bit signed decimal.
    Reserved,
    /// The channel field is not a 32-bit unsigned decimal.
    Channel,
    /// The anchor id is not a quoted run of exactly twelve hex digits.
    AnchorId,
    /// The user-defined field is not a quoted alphanumeric run.
    UserDefined,
    /// The timestamp field is not a 32-bit unsigned decimal.
    Timestamp,
    /// The sequence field is not a 32-bit unsigned decimal.
    Sequence,
    /// The heartbeat payload is missing its hex blob.
    Payload,
}

/// A decode failure, naming the first grammar rule that did not match.
#[derive(Debug, Clone, Copy, PartialEq, Eq, Structural)]
pub struct DecodeError {
    /// The rule that failed.
    pub rule: DecodeRule,
}

/// Indicates that the tag is alive and communicating.
#[derive(Debug, Clone, PartialEq, Eq, Structural)]
pub struct UUDFPEvent {
    /// The id of the tag whose heartbeat was heard.
    pub tag_id: u64,
}

/// One measurement between a particular tag/anchor pair.
#[derive(Debug, Clone, PartialEq, Eq)]
pub struct UUDFEvent {
    /// The id of the tag whose data is being reported.
    pub tag_id: u64,
    /// Signal strength.
    pub rssi: i32,
    /// Azimuth to the tag, in raw device units.
    pub angle_1: i32,
    /// Elevation to the tag, in raw device units.
    pub angle_2: i32,
    /// Undocumented by the vendor; carried through unchanged.
    pub reserved: i32,
    /// Radio channel of the reading.
    pub channel: u32,
    /// The id of the anchor antenna.
    pub anchor_id: u64,
    /// Free-form alphanumeric field configured on the device.
    pub user_defined: String,
    /// Milliseconds since the listener powered on.
    pub timestamp: u32,
    /// Reading counter: the first reading is 1, the next 2, and so on.
    pub sequence: u32,
}

/// The kinds of messages an antenna can send.
#[derive(Debug, Clone, PartialEq, Eq)]
pub enum HardwareEvent {
    /// A real measurement from a specific antenna/tag pair.
    UUDFEvent(UUDFEvent),
    /// A heartbeat message with no measurement.
    UUDFPEvent(UUDFPEvent),
}

/// The fields of a measurement line, as mathematical values.
pub struct UudfFields {
    /// Reporting tag id.
    pub tag_id: int,
    /// Signal strength.
    pub rssi: int,
    /// First angle.
    pub angle_1: int,
    /// Second angle.
    pub angle_2: int,
    /// Reserved field.
    pub reserved: int,
    /// Radio channel.
    pub channel: int,
    /// Anchor id.
    pub anchor_id: int,
    /// User-defined field, as its ASCII bytes.
    pub user_defined: Seq<u8>,
    /// Timestamp.
    pub timestamp: int,
    /// Sequence counter.
    pub sequence: int,
}

/// The ASCII bytes of `+UUDF:`.
pub open spec fn uudf_prefix() -> Seq<u8> {
    seq![0x2bu8, 0x55u8, 0x55u8, 0x44u8, 0x46u8, 0x3au8]
}

/// The ASCII bytes of `+UUDFP:`.
pub open spec fn uudfp_prefix() -> Seq<u8> {
    seq![0x2bu8, 0x55u8, 0x55u8, 0x44u8, 0x46u8, 0x50u8, 0x3au8]
}

/// An id: a maximal run of exactly twelve hex digits starting at `i`.
/// Yields the 48-bit value and the index just past the run.
pub open spec fn spec_id(s: Seq<u8>, i: int) -> Option<(int, int)> {
    let e = hex_run_end(s, i);
    if e - i == 12 {
        Some((hex_value(s.subrange(i, e)), e))
    } else {
        None
    }
}

/// A comma followed by a signed 32-bit decimal field.
pub open spec fn spec_comma_i32(s: Seq<u8>, i: int) -> Option<(int, int)> {
    if 0 <= i < s.len() && s[i] == 0x2c {
        spec_parse_i32(s, i + 1)
    } else {
        None
    }
}

/// A comma followed by an unsigned 32-bit decimal field.
pub open spec fn spec_comma_u32(s: Seq<u8>, i: int) -> Option<(int, int)> {
    if 0 <= i < s.len() && s[i] == 0x2c {
        let e = digit_run_end(s, i + 1);
        if e == i + 1 || dec_value(s.subrange(i + 1, e)) > u32::MAX {
            None
        } else {
            Some((dec_value(s.subrange(i + 1, e)), e))
        }
    } else {
        None
    }
}

/// A comma followed by an id in double quotes.
pub open spec fn spec_comma_quoted_id(s: Seq<u8>, i: int) -> Option<(int, int)> {
    if 0 <= i && i + 1 < s.len() && s[i] == 0x2c && s[i + 1] == 0x22 {
        match spec_id(s, i + 2) {
            Some((v, e)) => if e < s.len() && s[e] == 0x22 {
                Some((v, e + 1))
            } else {
                None
            },
            None => None,
        }
    } else {
        None
    }
}

/// A comma followed by a possibly empty alphanumeric run in double quotes.
pub open spec fn spec_comma_quoted_alnum(s: Seq<u8>, i: int) -> Option<(Seq<u8>, int)> {
    if 0 <= i && i + 1 < s.len() && s[i] == 0x2c && s[i + 1] == 0x22 {
        let e = alnum_run_end(s, i + 2);
        if e < s.len() && s[e] == 0x22 {
            Some((s.subrange(i + 2, e), e + 1))
        } else {
            None
        }
    } else {
        None
    }
}

/// The measurement grammar: the prefix, a tag id, four signed fields, an
/// unsigned channel, a quoted anchor id, a quoted user field, and two
/// unsigned counters, all comma-separated. Trailing bytes are ignored.
pub open spec fn spec_parse_uudf(s: Seq<u8>) -> Result<UudfFields, DecodeRule> {
    if !(s.len() >= 6 && s.subrange(0, 6) == uudf_prefix()) {
        Err(DecodeRule::Prefix)
    } else {
        match spec_id(s, 6) {
            None => Err(DecodeRule::TagId),
            Some((tag_id, p1)) => match spec_comma_i32(s, p1) {
                None => Err(DecodeRule::Rssi),
                Some((rssi, p2)) => match spec_comma_i32(s, p2) {
                    None => Err(DecodeRule::Angle1),
                    Some((angle_1, p3)) => match spec_comma_i32(s, p3) {
                        None => Err(DecodeRule::Angle2),
                        Some((angle_2, p4)) => match spec_comma_i32(s, p4) {
                            None => Err(DecodeRule::Reserved),
                            Some((reserved, p5)) => match spec_comma_u32(s, p5) {
                                None => Err(DecodeRule::Channel),
                                Some((channel, p6)) => match spec_comma_quoted_id(s, p6) {
                                    None => Err(DecodeRule::AnchorId),
                                    Some((anchor_id, p7)) => match spec_comma_quoted_alnum(
                                        s,
                                        p7,
                                    ) {
                                        None => Err(DecodeRule::UserDefined),
                                        Some((user_defined, p8)) => match spec_comma_u32(
                                            s,
                                            p8,
                                        ) {
                                            None => Err(DecodeRule::Timestamp),
                                            Some((timestamp, p9)) => match spec_comma_u32(
                                                s,
                                                p9,
                                            ) {
                                                None => Err(DecodeRule::Sequence),
                                                Some((sequence, _p10)) => Ok(
                                                    UudfFields {
                                                        tag_id,
                                                        rssi,
                                                        angle_1,
                                                        angle_2,
                                                        reserved,
                                                        channel,
                                                        anchor_id,
                                                        user_defined,
                                                        timestamp,
                                                        sequence,
                                                    },
                                                ),
                                            },
                                        },
                                    },
                                },
                            },
                        },
                    },
                },
            },
        }
    }
}

/// The heartbeat grammar: the prefix, a tag id, a comma, and a non-empty
/// run of hex digits. Trailing bytes are ignored.
pub open spec fn spec_parse_uudfp(s: Seq<u8>) -> Result<int, DecodeRule> {
    if !(s.len() >= 7 && s.subrange(0, 7) == uudfp_prefix()) {
        Err(DecodeRule::Prefix)
    } else {
        match spec_id(s, 7) {
            None => Err(DecodeRule::TagId),
            Some((tag_id, p1)) => if 0 <= p1 < s.len() && s[p1] == 0x2c && hex_run_end(
                s,
                p1 + 1,
            ) > p1 + 1 {
                Ok(tag_id)
            } else {
                Err(DecodeRule::Payload)
            },
        }
    }
}

/// The decoded measurement carries exactly the fields of the line.
pub open spec fn uudf_matches(ev: UUDFEvent, f: UudfFields) -> bool {
    &&& ev.tag_id == f.tag_id
    &&& ev.rssi == f.rssi
    &&& ev.angle_1 == f.angle_1
    &&& ev.angle_2 == f.angle_2
    &&& ev.reserved == f.reserved
    &&& ev.channel == f.channel
    &&& ev.anchor_id == f.anchor_id
    &&& ev.user_defined@ == f.user_defined.map_values(|b: u8| b as char)
    &&& ev.timestamp == f.timestamp
    &&& ev.sequence == f.sequence
}

/// Relies on `String::from_utf8`: a vector of ASCII bytes is valid UTF-8 and
/// decodes to the characters with the same code points.
#[verifier::external_body]
fn ascii_string(bytes: Vec<u8>) -> (r: String)
    requires
        forall|i: int| 0 <= i < bytes@.len() ==> bytes@[i] < 0x80,
    ensures
        r@ == bytes@.map_values(|b: u8| b as char),
{
    String::from_utf8(bytes).unwrap_or_else(|_| String::new())
}

/// Decodes a measurement line from its raw bytes.
pub fn parse_uudf_bytes(s: &[u8]) -> (r: Result<UUDFEvent, DecodeError>)
    ensures
        match r {
            Ok(ev) => spec_parse_uudf(s@) is Ok && uudf_matches(ev, spec_parse_uudf(s@)->Ok_0),
            Err(e) => spec_parse_uudf(s@) == Err::<UudfFields, DecodeRule>(e.rule),
        },
{
    if !(s.len() >= 6 && s[0] == 0x2b && s[1] == 0x55 && s[2] == 0x55 && s[3] == 0x44 && s[4]
        == 0x46 && s[5] == 0x3a) {
        proof {
            if s@.len() >= 6 {
                assert(s@.subrange(0, 6) != uudf_prefix());
            }
        }
        return Err(DecodeError { rule: DecodeRule::Prefix });
    }
    assert(s@.subrange(0, 6) =~= uudf_prefix());
    let (tag_id, p1) = match parse_hex12(s, 6) {
        Some(v) => v,
        None => {
            return Err(DecodeError { rule: DecodeRule::TagId });
        },
    };
    let (rssi, p2) = match parse_comma_i32(s, p1) {
        Some(v) => v,
        None => {
            return Err(DecodeError { rule: DecodeRule::Rssi });
        },
    };
    let (angle_1, p3) = match parse_comma_i32(s, p2) {
        Some(v) => v,
        None => {
            return Err(DecodeError { rule: DecodeRule::Angle1 });
        },
    };
    let (angle_2, p4) = match parse_comma_i32(s, p3) {
        Some(v) => v,
        None => {
            return Err(DecodeError { rule: DecodeRule::Angle2 });
        },
    };
    let (reserved, p5) = match parse_comma_i32(s, p4) {
        Some(v) => v,
        None => {
            return Err(DecodeError { rule: DecodeRule::Reserved });
        },
    };
    let (channel, p6) = match parse_comma_u32(s, p5) {
        Some(v) => v,
        None => {
            return Err(DecodeError { rule: DecodeRule::Channel });
        },
    };
    let (anchor_id, p7) = match parse_comma_quoted_id(s, p6) {
        Some(v) => v,
        None => {
            return Err(DecodeError { rule: DecodeRule::AnchorId });
        },
    };
    let (user_bytes, p8) = match parse_comma_quoted_alnum(s, p7) {
        Some(v) => v,
        None => {
            return Err(DecodeError { rule: DecodeRule::UserDefined });
        },
    };
    let (timestamp, p9) = match parse_comma_u32(s, p8) {
        Some(v) => v,
        None => {
            return Err(DecodeError { rule: DecodeRule::Timestamp });
        },
    };
    let (sequence, _p10) = match parse_comma_u32(s, p9) {
        Some(v) => v,
        None => {
            return Err(DecodeError { rule: DecodeRule::Sequence });
        },
    };
    let user_defined = ascii_string(user_bytes);
    Ok(
        UUDFEvent {
            tag_id,
            rssi,
            angle_1,
            angle_2,
            reserved,
            channel,
            anchor_id,
            user_defined,
            timestamp,
            sequence,
        },
    )
}

/// Decodes a heartbeat line from its raw bytes.
pub fn parse_uudfp_bytes(s: &[u8]) -> (r: Result<UUDFPEvent, DecodeError>)
    ensures
        match r {
            Ok(ev) => spec_parse_uudfp(s@) == Ok::<int, DecodeRule>(ev.tag_id as int),
            Err(e) => spec_parse_uudfp(s@) == Err::<int, DecodeRule>(e.rule),
        },
{
    if !(s.len() >= 7 && s[0] == 0x2b && s[1] == 0x55 && s[2] == 0x55 && s[3] == 0x44 && s[4]
        == 0x46 && s[5] == 0x50 && s[6] == 0x3a) {
        proof {
            if s@.len() >= 7 {
                assert(s@.subrange(0, 7) != uudfp_prefix());
            }
        }
        return Err(DecodeError { rule: DecodeRule::Prefix });
    }
    assert(s@.subrange(0, 7) =~= uudfp_prefix());
    let (tag_id, p1) = match parse_hex12(s, 7) {
        Some(v) => v,
        None => {
            return Err(DecodeError { rule: DecodeRule::TagId });
        },
    };
    if p1 < s.len() && s[p1] == 0x2c {
        let blob_end = scan_hex_run(s, p1 + 1);
        if blob_end > p1 + 1 {
            return Ok(UUDFPEvent { tag_id });
        }
    }
    Err(DecodeError { rule: DecodeRule::Payload })
}

fn parse_comma_i32(s: &[u8], i: usize) -> (r: Option<(i32, usize)>)
    requires
        i <= s@.len(),
    ensures
        match r {
            Some(p) => spec_comma_i32(s@, i as int) == Some((p.0 as int, p.1 as int)) && p.1
                <= s@.len(),
            None => spec_comma_i32(s@, i as int) is None,
        },
{
    if i < s.len() && s[i] == 0x2c {
        match parse_i32_dec(s, i + 1) {
            Some((v, e)) => {
                proof {
                    crate::text::lemma_digit_run_end(s@, i + 1);
                    if i + 1 < s@.len() && (s@[i + 1] == 0x2d || s@[i + 1] == 0x2b) {
                        crate::text::lemma_digit_run_end(s@, i + 2);
                    }
                }
                Some((v, e))
            },
            None => None,
        }
    } else {
        None
    }
}

fn parse_comma_u32(s: &[u8], i: usize) -> (r: Option<(u32, usize)>)
    requires
        i <= s@.len(),
    ensures
        match r {
            Some(p) => spec_comma_u32(s@, i as int) == Some((p.0 as int, p.1 as int)) && p.1
                <= s@.len(),
            None => spec_comma_u32(s@, i as int) is None,
        },
{
    if i < s.len() && s[i] == 0x2c {
        match parse_u32_dec(s, i + 1) {
            Some((v, e)) => {
                proof {
                    crate::text::lemma_digit_run_end(s@, i + 1);
                }
                Some((v, e))
            },
            None => None,
        }
    } else {
        None
    }
}

fn parse_comma_quoted_id(s: &[u8], i: usize) -> (r: Option<(u64, usize)>)
    requires
        i <= s@.len(),
    ensures
        match r {
            Some(p) => spec_comma_quoted_id(s@, i as int) == Some((p.0 as int, p.1 as int)) && p.1
                <= s@.len(),
            None => spec_comma_quoted_id(s@, i as int) is None,
        },
{
    if i < s.len() && i + 1 < s.len() && s[i] == 0x2c && s[i + 1] == 0x22 {
        match parse_hex12(s, i + 2) {
            Some((v, e)) => {
                proof {
                    crate::text::lemma_hex_run_end(s@, i + 2);
                }
                if e < s.len() && s[e] == 0x22 {
                    Some((v, e + 1))
                } else {
                    None
                }
            },
            None => None,
        }
    } else {
        None
    }
}

fn parse_comma_quoted_alnum(s: &[u8], i: usize) -> (r: Option<(Vec<u8>, usize)>)
    requires
        i <= s@.len(),
    ensures
        match r {
            Some(p) => spec_comma_quoted_alnum(s@, i as int) == Some((p.0@, p.1 as int)) && p.1
                <= s@.len() && forall|k: int| 0 <= k < p.0@.len() ==> p.0@[k] < 0x80,
            None => spec_comma_quoted_alnum(s@, i as int) is None,
        },
{
    if i < s.len() && i + 1 < s.len() && s[i] == 0x2c && s[i + 1] == 0x22 {
        let e = scan_alnum_run(s, i + 2);
        proof {
            crate::text::lemma_alnum_run_end(s@, i + 2);
        }
        if e < s.len() && s[e] == 0x22 {
            let run = slice_subrange(s, i + 2, e);
            let bytes = slice_to_vec(run);
            Some((bytes, e + 1))
        } else {
            None
        }
    } else {
        None
    }
}

impl UUDFEvent {
    /// Decodes a measurement line; everything after a complete message is
    /// ignored.
    pub fn from_str(line: &str) -> (r: Result<UUDFEvent, DecodeError>)
        ensures
            match r {
                Ok(ev) => spec_parse_uudf(line.spec_bytes()) is Ok && uudf_matches(
                    ev,
                    spec_parse_uudf(line.spec_bytes())->Ok_0,
                ),
                Err(e) => spec_parse_uudf(line.spec_bytes()) == Err::<UudfFields, DecodeRule>(
                    e.rule,
                ),
            },
    {
        parse_uudf_bytes(line.as_bytes())
    }
}

impl UUDFPEvent {
    /// Decodes a heartbeat line; everything after a complete message is
    /// ignored.
    pub fn from_str(line: &str) -> (r: Result<UUDFPEvent, DecodeError>)
        ensures
            match r {
                Ok(ev) => spec_parse_uudfp(line.spec_bytes()) == Ok::<int, DecodeRule>(
                    ev.tag_id as int,
                ),
                Err(e) => spec_parse_uudfp(line.spec_bytes()) == Err::<int, DecodeRule>(e.rule),
            },
    {
        parse_uudfp_bytes(line.as_bytes())
    }
}

impl HardwareEvent {
    /// Decodes a line as a measurement if it matches that grammar, else as a
    /// heartbeat; when both fail, reports the heartbeat attempt's rule.
    pub fn from_str(line: &str) -> (r: Result<HardwareEvent, DecodeError>)
        ensures
            match r {
                Ok(ev) => match ev {
                    HardwareEvent::UUDFEvent(m) => spec_parse_uudf(line.spec_bytes()) is Ok
                        && uudf_matches(m, spec_parse_uudf(line.spec_bytes())->Ok_0),
                    HardwareEvent::UUDFPEvent(h) => spec_parse_uudf(line.spec_bytes()) is Err
                        && spec_parse_uudfp(line.spec_bytes()) == Ok::<int, DecodeRule>(
                        h.tag_id as int,
                    ),
                },
                Err(e) => spec_parse_uudf(line.spec_bytes()) is Err && spec_parse_uudfp(
                    line.spec_bytes(),
                ) == Err::<int, DecodeRule>(e.rule),
            },
    {
        let bytes = line.as_bytes();
        match parse_uudf_bytes(bytes) {
            Ok(ev) => Ok(HardwareEvent::UUDFEvent(ev)),
            Err(_) => match parse_uudfp_bytes(bytes) {
                Ok(ev) => Ok(HardwareEvent::UUDFPEvent(ev)),
                Err(e) => Err(e),
            },
        }
    }
}

} // verus!

//! The GrapeFile format: a header describing the streams, a `0xFF`
//! delimiter byte, and the samples interleaved round-robin across streams,
//! four big-endian bytes each.
//!
//! The header is ASCII text of the canonical form
//! `(n_streams:A,sample_rate:B,tags:[C,D])`, where `A` and `B` are decimal
//! and each tag is one of the nine stream-kind names. Since the header is
//! ASCII it can never contain the delimiter byte.
//!
//! Samples are carried as `u32` bit patterns of IEEE 754 singles: the four
//! bytes written for a sample are exactly the big-endian bytes of the
//! single, so the embedding program converts with `f32::to_bits` /
//! `f32::from_bits` and nothing else.

use vstd::prelude::*;

use crate::text::{
    alnum_run_end, dec_digits, dec_value, digit_run_end, format_u64, is_alnum, is_digit,
    lemma_alnum_run_end, lemma_dec_digits, lemma_digit_run_end, lemma_digit_run_is,
    parse_u64_dec, scan_alnum_run,
};

verus! {

/// One stream's sample type: the bit pattern of an IEEE 754 single.
pub type Sample = u32;

/// The kind of spatial data contained within a particular stream.
#[derive(Debug, Clone, Copy, PartialEq, Eq, Structural)]
pub enum GrapeTag {
    /// X position in cartesian coordinates.
    X,
    /// Y position in cartesian coordinates.
    Y,
    /// Z position in cartesian coordinates.
    Z,
    /// Azimuth in spherical coordinates.
    Azimuth,
    /// Elevation in spherical coordinates.
    Elevation,
    /// Range in spherical coordinates.
    Range,
    /// Pitch in angular direction.
    Pitch,
    /// Yaw in angular direction.
    Yaw,
    /// Roll in angular direction.
    Roll,
}

/// What can go wrong while building or reading a GrapeFile.
#[derive(Debug, Clone, Copy, PartialEq, Eq, Structural)]
pub enum GrapeFileError {
    /// The sample buffers handed to the strict builder differ in length.
    UnequalSampleBufferLengths,
    /// The delimiter byte between header and samples is missing.
    NoDelimiter,
    /// The sample bytes after the delimiter are not a whole number of
    /// four-byte groups.
    TryInto,
    /// The header text does not parse, or does not describe its own
    /// stream count consistently.
    Header,
    /// The sample section does not hold a whole number of frames, one
    /// sample per stream.
    PartialFrame,
    /// The requested sample rate is not an exact integer multiple or
    /// divisor of the native rate; inexact ratios are rejected rather than
    /// silently resampled to the wrong length.
    UnsupportedRateRatio,
}

/// The header of a GrapeFile.
#[derive(Debug, Clone, PartialEq, Eq)]
pub struct GrapeFileHeader {
    /// Number of streams interleaved in the sample section.
    pub n_streams: u64,
    /// Samples per second of each stream.
    pub sample_rate: u64,
    /// One kind tag per stream, in interleaving order.
    pub tags: Vec<GrapeTag>,
}

/// Mathematical value of a header.
pub struct HeaderView {
    /// Number of streams.
    pub n_streams: u64,
    /// Samples per second.
    pub sample_rate: u64,
    /// One tag per stream.
    pub tags: Seq<GrapeTag>,
}

impl View for GrapeFileHeader {
    type V = HeaderView;

    open spec fn view(&self) -> HeaderView {
        HeaderView { n_streams: self.n_streams, sample_rate: self.sample_rate, tags: self.tags@ }
    }
}

impl HeaderView {
    /// A header must announce exactly as many streams as it tags.
    pub open spec fn wf(self) -> bool {
        self.tags.len() == self.n_streams
    }
}

/// The ASCII name of a tag, as written in the header.
pub open spec fn tag_name(t: GrapeTag) -> Seq<u8> {
    match t {
        GrapeTag::X => seq![0x58u8],
        GrapeTag::Y => seq![0x59u8],
        GrapeTag::Z => seq![0x5au8],
        GrapeTag::Azimuth => seq![0x41u8, 0x7au8, 0x69u8, 0x6du8, 0x75u8, 0x74u8, 0x68u8],
        GrapeTag::Elevation => seq![
            0x45u8,
            0x6cu8,
            0x65u8,
            0x76u8,
            0x61u8,
            0x74u8,
            0x69u8,
            0x6fu8,
            0x6eu8,
        ],
        GrapeTag::Range => seq![0x52u8, 0x61u8, 0x6eu8, 0x67u8, 0x65u8],
        GrapeTag::Pitch => seq![0x50u8, 0x69u8, 0x74u8, 0x63u8, 0x68u8],
        GrapeTag::Yaw => seq![0x59u8, 0x61u8, 0x77u8],
        GrapeTag::Roll => seq![0x52u8, 0x6fu8, 0x6cu8, 0x6cu8],
    }
}

/// The tag a name denotes, if any.
pub open spec fn tag_of_name(name: Seq<u8>) -> Option<GrapeTag> {
    if name == tag_name(GrapeTag::X) {
        Some(GrapeTag::X)
    } else if name == tag_name(GrapeTag::Y) {
        Some(GrapeTag::Y)
    } else if name == tag_name(GrapeTag::Z) {
        Some(GrapeTag::Z)
    } else if name == tag_name(GrapeTag::Azimuth) {
        Some(GrapeTag::Azimuth)
    } else if name == tag_name(GrapeTag::Elevation) {
        Some(GrapeTag::Elevation)
    } else if name == tag_name(GrapeTag::Range) {
        Some(GrapeTag::Range)
    } else if name == tag_name(GrapeTag::Pitch) {
        Some(GrapeTag::Pitch)
    } else if name == tag_name(GrapeTag::Yaw) {
        Some(GrapeTag::Yaw)
    } else if name == tag_name(GrapeTag::Roll) {
        Some(GrapeTag::Roll)
    } else {
        None
    }
}

/// The tag list as written between the brackets: names joined by commas.
pub open spec fn tags_bytes(ts: Seq<GrapeTag>) -> Seq<u8>
    decreases ts.len(),
{
    if ts.len() == 0 {
        Seq::empty()
    } else if ts.len() == 1 {
        tag_name(ts[0])
    } else {
        tags_bytes(ts.drop_last()) + seq![0x2cu8] + tag_name(ts.last())
    }
}

/// The ASCII bytes of `(n_streams:`.
pub open spec fn header_lit_open() -> Seq<u8> {
    seq![
        0x28u8,
        0x6eu8,
        0x5fu8,
        0x73u8,
        0x74u8,
        0x72u8,
        0x65u8,
        0x61u8,
        0x6du8,
        0x73u8,
        0x3au8,
    ]
}

/// The ASCII bytes of `,sample_rate:`.
pub open spec fn header_lit_rate() -> Seq<u8> {
    seq![
        0x2cu8,
        0x73u8,
        0x61u8,
        0x6du8,
        0x70u8,
        0x6cu8,
        0x65u8,
        0x5fu8,
        0x72u8,
        0x61u8,
        0x74u8,
        0x65u8,
        0x3au8,
    ]
}

/// The ASCII bytes of `,tags:[`.
pub open spec fn header_lit_tags() -> Seq<u8> {
    seq![0x2cu8, 0x74u8, 0x61u8, 0x67u8, 0x73u8, 0x3au8, 0x5bu8]
}

/// The ASCII bytes of `])`.
pub open spec fn header_lit_close() -> Seq<u8> {
    seq![0x5du8, 0x29u8]
}

/// The canonical encoding of a header.
pub open spec fn header_bytes(h: HeaderView) -> Seq<u8> {
    header_lit_open() + dec_digits(h.n_streams) + header_lit_rate() + dec_digits(h.sample_rate)
        + header_lit_tags() + tags_bytes(h.tags) + header_lit_close()
}

/// `lit` occurs in `s` at position `i`.
pub open spec fn match_at(s: Seq<u8>, i: int, lit: Seq<u8>) -> bool {
    0 <= i && i + lit.len() <= s.len() && s.subrange(i, i + lit.len()) == lit
}

/// A decimal `u64` field at `i`: the maximal digit run, which must be
/// non-empty and fit.
pub open spec fn spec_u64_at(s: Seq<u8>, i: int) -> Option<(int, int)> {
    let e = digit_run_end(s, i);
    if e == i || dec_value(s.subrange(i, e)) > u64::MAX {
        None
    } else {
        Some((dec_value(s.subrange(i, e)), e))
    }
}

/// A non-empty tag list followed by the closing bracket.
pub open spec fn spec_parse_tags_ne(s: Seq<u8>, i: int) -> Option<(Seq<GrapeTag>, int)>
    decreases s.len() - i,
{
    if i < 0 || i >= s.len() {
        None
    } else {
        let e = alnum_run_end(s, i);
        match tag_of_name(s.subrange(i, e)) {
            None => None,
            Some(t) => if e < s.len() && s[e] == 0x2c {
                proof {
                    lemma_alnum_run_end(s, i);
                }
                match spec_parse_tags_ne(s, e + 1) {
                    Some(p) => Some((seq![t] + p.0, p.1)),
                    None => None,
                }
            } else if e < s.len() && s[e] == 0x5d {
                Some((seq![t], e + 1))
            } else {
                None
            },
        }
    }
}

/// The bracketed tag list at `i`, ending just past the closing bracket.
pub open spec fn spec_parse_tags(s: Seq<u8>, i: int) -> Option<(Seq<GrapeTag>, int)> {
    if 0 <= i < s.len() && s[i] == 0x5d {
        Some((Seq::empty(), i + 1))
    } else {
        spec_parse_tags_ne(s, i)
    }
}

/// The header grammar, which must span the whole input: the opening
/// literal, the stream count, the rate literal, the sample rate, the tags
/// literal, the bracketed tag list, and the closing literal.
pub open spec fn spec_parse_header(s: Seq<u8>) -> Option<HeaderView> {
    if !match_at(s, 0, header_lit_open()) {
        None
    } else {
        match spec_u64_at(s, header_lit_open().len() as int) {
            None => None,
            Some((ns, i2)) => if !match_at(s, i2, header_lit_rate()) {
                None
            } else {
                match spec_u64_at(s, i2 + header_lit_rate().len()) {
                    None => None,
                    Some((sr, i4)) => if !match_at(s, i4, header_lit_tags()) {
                        None
                    } else {
                        match spec_parse_tags(s, i4 + header_lit_tags().len()) {
                            None => None,
                            Some((tags, i6)) => if i6 + 1 == s.len() && s[i6] == 0x29 {
                                Some(
                                    HeaderView {
                                        n_streams: ns as u64,
                                        sample_rate: sr as u64,
                                        tags,
                                    },
                                )
                            } else {
                                None
                            },
                        }
                    },
                }
            },
        }
    }
}

/// Appends the opening literal.
fn push_lit_open(out: &mut Vec<u8>)
    ensures
        final(out)@ == old(out)@ + header_lit_open(),
{
    out.push(0x28);
    out.push(0x6e);
    out.push(0x5f);
    out.push(0x73);
    out.push(0x74);
    out.push(0x72);
    out.push(0x65);
    out.push(0x61);
    out.push(0x6d);
    out.push(0x73);
    out.push(0x3a);
    assert(out@ =~= old(out)@ + header_lit_open());
}

/// Appends the rate literal.
fn push_lit_rate(out: &mut Vec<u8>)
    ensures
        final(out)@ == old(out)@ + header_lit_rate(),
{
    out.push(0x2c);
    out.push(0x73);
    out.push(0x61);
    out.push(0x6d);
    out.push(0x70);
    out.push(0x6c);
    out.push(0x65);
    out.push(0x5f);
    out.push(0x72);
    out.push(0x61);
    out.push(0x74);
    out.push(0x65);
    out.push(0x3a);
    assert(out@ =~= old(out)@ + header_lit_rate());
}

/// Appends the tags literal.
fn push_lit_tags(out: &mut Vec<u8>)
    ensures
        final(out)@ == old(out)@ + header_lit_tags(),
{
    out.push(0x2c);
    out.push(0x74);
    out.push(0x61);
    out.push(0x67);
    out.push(0x73);
    out.push(0x3a);
    out.push(0x5b);
    assert(out@ =~= old(out)@ + header_lit_tags());
}

/// Appends the name of one tag.
fn push_tag_name(out: &mut Vec<u8>, t: GrapeTag)
    ensures
        final(out)@ == old(out)@ + tag_name(t),
{
    match t {
        GrapeTag::X => {
            out.push(0x58);
        },
        GrapeTag::Y => {
            out.push(0x59);
        },
        GrapeTag::Z => {
            out.push(0x5a);
        },
        GrapeTag::Azimuth => {
            out.push(0x41);
            out.push(0x7a);
            out.push(0x69);
            out.push(0x6d);
            out.push(0x75);
            out.push(0x74);
            out.push(0x68);
        },
        GrapeTag::Elevation => {
            out.push(0x45);
            out.push(0x6c);
            out.push(0x65);
            out.push(0x76);
            out.push(0x61);
            out.push(0x74);
            out.push(0x69);
            out.push(0x6f);
            out.push(0x6e);
        },
        GrapeTag::Range => {
            out.push(0x52);
            out.push(0x61);
            out.push(0x6e);
            out.push(0x67);
            out.push(0x65);
        },
        GrapeTag::Pitch => {
            out.push(0x50);
            out.push(0x69);
            out.push(0x74);
            out.push(0x63);
            out.push(0x68);
        },
        GrapeTag::Yaw => {
            out.push(0x59);
            out.push(0x61);
            out.push(0x77);
        },
        GrapeTag::Roll => {
            out.push(0x52);
            out.push(0x6f);
            out.push(0x6c);
            out.push(0x6c);
        },
    }
    assert(out@ =~= old(out)@ + tag_name(t));
}

/// Encodes a header into its canonical ASCII form.
pub fn encode_header(h: &GrapeFileHeader) -> (out: Vec<u8>)
    ensures
        out@ == header_bytes(h@),
{
    let mut out: Vec<u8> = Vec::new();
    push_lit_open(&mut out);
    let mut d = format_u64(h.n_streams);
    out.append(&mut d);
    push_lit_rate(&mut out);
    let mut d = format_u64(h.sample_rate);
    out.append(&mut d);
    push_lit_tags(&mut out);
    let ghost prefix = out@;
    let n = h.tags.len();
    let mut idx: usize = 0;
    while idx < n
        invariant
            n == h.tags@.len(),
            0 <= idx <= n,
            out@ == prefix + tags_bytes(h.tags@.subrange(0, idx as int)),
        decreases n - idx,
    {
        if idx > 0 {
            out.push(0x2c);
        }
        push_tag_name(&mut out, h.tags[idx]);
        proof {
            let ts = h.tags@.subrange(0, idx + 1);
            assert(ts.drop_last() =~= h.tags@.subrange(0, idx as int));
            assert(ts.last() == h.tags@[idx as int]);
            if idx == 0 {
                assert(tags_bytes(ts) == tag_name(h.tags@[0]));
                assert(out@ =~= prefix + tags_bytes(ts));
            } else {
                assert(tags_bytes(ts) == tags_bytes(ts.drop_last()) + seq![0x2cu8] + tag_name(
                    ts.last(),
                ));
                assert(out@ =~= prefix + tags_bytes(ts));
            }
        }
        idx = idx + 1;
    }
    assert(h.tags@.subrange(0, n as int) =~= h.tags@);
    out.push(0x5d);
    out.push(0x29);
    assert(out@ =~= header_bytes(h@));
    out
}

/// Tests whether `lit` occurs in `s` at `i`, for a literal handed in as a
/// slice.
fn match_lit(s: &[u8], i: usize, lit: &[u8]) -> (r: bool)
    ensures
        r == match_at(s@, i as int, lit@),
{
    if i > s.len() || s.len() - i < lit.len() {
        return false;
    }
    let n = s.len();
    let mut k: usize = 0;
    while k < lit.len()
        invariant
            0 <= k <= lit@.len(),
            i + lit@.len() <= s@.len(),
            n == s@.len(),
            forall|m: int| 0 <= m < k ==> s@[i + m] == lit@[m],
        decreases lit@.len() - k,
    {
        if s[i + k] != lit[k] {
            assert(s@.subrange(i as int, i + lit@.len()) != lit@) by {
                assert(s@.subrange(i as int, i + lit@.len())[k as int] == s@[i + k]);
            }
            return false;
        }
        k = k + 1;
    }
    assert(s@.subrange(i as int, i + lit@.len()) =~= lit@);
    true
}

/// The opening literal, as a vector.
fn lit_open_vec() -> (v: Vec<u8>)
    ensures
        v@ == header_lit_open(),
{
    let mut v: Vec<u8> = Vec::new();
    push_lit_open(&mut v);
    v
}

/// The rate literal, as a vector.
fn lit_rate_vec() -> (v: Vec<u8>)
    ensures
        v@ == header_lit_rate(),
{
    let mut v: Vec<u8> = Vec::new();
    push_lit_rate(&mut v);
    v
}

/// The tags literal, as a vector.
fn lit_tags_vec() -> (v: Vec<u8>)
    ensures
        v@ == header_lit_tags(),
{
    let mut v: Vec<u8> = Vec::new();
    push_lit_tags(&mut v);
    v
}

/// Reads the tag whose name stands at `i`, as the maximal alphanumeric run
/// there.
fn parse_tag_token(s: &[u8], i: usize) -> (r: Option<(GrapeTag, usize)>)
    requires
        i <= s@.len(),
    ensures
        ({
            let e = alnum_run_end(s@, i as int);
            match r {
                Some(p) => p.1 == e && i <= e <= s@.len() && tag_of_name(
                    s@.subrange(i as int, e),
                ) == Some(p.0),
                None => tag_of_name(s@.subrange(i as int, alnum_run_end(s@, i as int)))
                    is None,
            }
        }),
{
    let e = scan_alnum_run(s, i);
    let ghost name = s@.subrange(i as int, e as int);
    let len = e - i;
    proof {
        assert(name.len() == len);
        assert(tag_name(GrapeTag::X).len() == 1);
        assert(tag_name(GrapeTag::Y).len() == 1);
        assert(tag_name(GrapeTag::Z).len() == 1);
        assert(tag_name(GrapeTag::Yaw).len() == 3);
        assert(tag_name(GrapeTag::Roll).len() == 4);
        assert(tag_name(GrapeTag::Range).len() == 5);
        assert(tag_name(GrapeTag::Pitch).len() == 5);
        assert(tag_name(GrapeTag::Azimuth).len() == 7);
        assert(tag_name(GrapeTag::Elevation).len() == 9);
    }
    if len == 1 {
        let b = s[i];
        let t = if b == 0x58 {
            Some(GrapeTag::X)
        } else if b == 0x59 {
            Some(GrapeTag::Y)
        } else if b == 0x5a {
            Some(GrapeTag::Z)
        } else {
            None
        };
        proof {
            assert(name.len() == 1 && name[0] == s@[i as int]);
            assert(name == tag_name(GrapeTag::X) <==> s@[i as int] == 0x58) by {
                if s@[i as int] == 0x58 {
                    assert(name =~= tag_name(GrapeTag::X));
                }
            }
            assert(name == tag_name(GrapeTag::Y) <==> s@[i as int] == 0x59) by {
                if s@[i as int] == 0x59 {
                    assert(name =~= tag_name(GrapeTag::Y));
                }
            }
            assert(name == tag_name(GrapeTag::Z) <==> s@[i as int] == 0x5a) by {
                if s@[i as int] == 0x5a {
                    assert(name =~= tag_name(GrapeTag::Z));
                }
            }
        }
        match t {
            Some(t) => Some((t, e)),
            None => None,
        }
    } else if len == 3 {
        if s[i] == 0x59 && s[i + 1] == 0x61 && s[i + 2] == 0x77 {
            assert(name =~= tag_name(GrapeTag::Yaw));
            Some((GrapeTag::Yaw, e))
        } else {
            assert(name != tag_name(GrapeTag::Yaw)) by {
                if name == tag_name(GrapeTag::Yaw) {
                    assert(name[0] == 0x59 && name[1] == 0x61 && name[2] == 0x77);
                }
            }
            None
        }
    } else if len == 4 {
        if s[i] == 0x52 && s[i + 1] == 0x6f && s[i + 2] == 0x6c && s[i + 3] == 0x6c {
            assert(name =~= tag_name(GrapeTag::Roll));
            Some((GrapeTag::Roll, e))
        } else {
            assert(name != tag_name(GrapeTag::Roll)) by {
                if name == tag_name(GrapeTag::Roll) {
                    assert(name[0] == 0x52 && name[1] == 0x6f && name[2] == 0x6c && name[3]
                        == 0x6c);
                }
            }
            None
        }
    } else if len == 5 {
        if s[i] == 0x52 && s[i + 1] == 0x61 && s[i + 2] == 0x6e && s[i + 3] == 0x67 && s[i + 4]
            == 0x65 {
            assert(name =~= tag_name(GrapeTag::Range));
            Some((GrapeTag::Range, e))
        } else if s[i] == 0x50 && s[i + 1] == 0x69 && s[i + 2] == 0x74 && s[i + 3] == 0x63 && s[i
            + 4] == 0x68 {
            assert(name =~= tag_name(GrapeTag::Pitch));
            Some((GrapeTag::Pitch, e))
        } else {
            assert(name != tag_name(GrapeTag::Range)) by {
                if name == tag_name(GrapeTag::Range) {
                    assert(name[0] == 0x52 && name[1] == 0x61 && name[2] == 0x6e && name[3]
                        == 0x67 && name[4] == 0x65);
                }
            }
            assert(name != tag_name(GrapeTag::Pitch)) by {
                if name == tag_name(GrapeTag::Pitch) {
                    assert(name[0] == 0x50 && name[1] == 0x69 && name[2] == 0x74 && name[3]
                        == 0x63 && name[4] == 0x68);
                }
            }
            None
        }
    } else if len == 7 {
        if s[i] == 0x41 && s[i + 1] == 0x7a && s[i + 2] == 0x69 && s[i + 3] == 0x6d && s[i + 4]
            == 0x75 && s[i + 5] == 0x74 && s[i + 6] == 0x68 {
            assert(name =~= tag_name(GrapeTag::Azimuth));
            Some((GrapeTag::Azimuth, e))
        } else {
            assert(name != tag_name(GrapeTag::Azimuth)) by {
                if name == tag_name(GrapeTag::Azimuth) {
                    assert(name[0] == 0x41 && name[1] == 0x7a && name[2] == 0x69 && name[3]
                        == 0x6d && name[4] == 0x75 && name[5] == 0x74 && name[6] == 0x68);
                }
            }
            None
        }
    } else if len == 9 {
        if s[i] == 0x45 && s[i + 1] == 0x6c && s[i + 2] == 0x65 && s[i + 3] == 0x76 && s[i + 4]
            == 0x61 && s[i + 5] == 0x74 && s[i + 6] == 0x69 && s[i + 7] == 0x6f && s[i + 8]
            == 0x6e {
            assert(name =~= tag_name(GrapeTag::Elevation));
            Some((GrapeTag::Elevation, e))
        } else {
            assert(name != tag_name(GrapeTag::Elevation)) by {
                if name == tag_name(GrapeTag::Elevation) {
                    assert(name[0] == 0x45 && name[1] == 0x6c && name[2] == 0x65 && name[3]
                        == 0x76 && name[4] == 0x61 && name[5] == 0x74 && name[6] == 0x69
                        && name[7] == 0x6f && name[8] == 0x6e);
                }
            }
            None
        }
    } else {
        None
    }
}

/// Reads the bracketed tag list starting at `start`, returning the tags and
/// the index just past the closing bracket.
fn parse_tags(s: &[u8], start: usize) -> (r: Option<(Vec<GrapeTag>, usize)>)
    requires
        start <= s@.len(),
    ensures
        match r {
            Some(p) => spec_parse_tags(s@, start as int) == Some((p.0@, p.1 as int)) && p.1
                <= s@.len(),
            None => spec_parse_tags(s@, start as int) is None,
        },
{
    if start < s.len() && s[start] == 0x5d {
        let v: Vec<GrapeTag> = Vec::new();
        assert(v@ =~= Seq::<GrapeTag>::empty());
        return Some((v, start + 1));
    }
    let mut acc: Vec<GrapeTag> = Vec::new();
    let mut i: usize = start;
    proof {
        match spec_parse_tags_ne(s@, start as int) {
            Some(p) => {
                assert(Seq::<GrapeTag>::empty() + p.0 =~= p.0);
            },
            None => {},
        }
    }
    loop
        invariant
            start <= i <= s@.len(),
            !(start < s@.len() && s@[start as int] == 0x5d),
            ({
                let whole = spec_parse_tags_ne(s@, start as int);
                let rest = spec_parse_tags_ne(s@, i as int);
                match rest {
                    Some(p) => whole == Some((acc@ + p.0, p.1)),
                    None => whole is None,
                }
            }),
        decreases s@.len() - i,
    {
        match parse_tag_token(s, i) {
            None => {
                return None;
            },
            Some((t, e)) => {
                proof {
                    lemma_alnum_run_end(s@, i as int);
                }
                if e < s.len() && s[e] == 0x2c {
                    acc.push(t);
                    proof {
                        let rest = spec_parse_tags_ne(s@, i as int);
                        let tail = spec_parse_tags_ne(s@, e + 1);
                        match tail {
                            Some(p) => {
                                assert(rest == Some((seq![t] + p.0, p.1)));
                                assert(acc@ + p.0 =~= acc@.drop_last() + (seq![t] + p.0));
                            },
                            None => {
                                assert(rest is None);
                            },
                        }
                    }
                    i = e + 1;
                } else if e < s.len() && s[e] == 0x5d {
                    acc.push(t);
                    proof {
                        let rest = spec_parse_tags_ne(s@, i as int);
                        assert(rest == Some((seq![t], e + 1)));
                        assert(acc@ =~= acc@.drop_last() + seq![t]);
                    }
                    return Some((acc, e + 1));
                } else {
                    return None;
                }
            },
        }
    }
}

/// Parses the whole of `s` as a header.
pub fn parse_header(s: &[u8]) -> (r: Option<GrapeFileHeader>)
    ensures
        match r {
            Some(h) => spec_parse_header(s@) == Some(h@),
            None => spec_parse_header(s@) is None,
        },
{
    let lit1 = lit_open_vec();
    if !match_lit(s, 0, lit1.as_slice()) {
        return None;
    }
    let i1: usize = 11;
    assert(header_lit_open().len() == 11);
    let (ns, i2) = match parse_u64_dec(s, i1) {
        Some(p) => p,
        None => {
            return None;
        },
    };
    let lit2 = lit_rate_vec();
    if !match_lit(s, i2, lit2.as_slice()) {
        return None;
    }
    if s.len() - i2 < 13 {
        return None;
    }
    let i3: usize = i2 + 13;
    assert(header_lit_rate().len() == 13);
    let (sr, i4) = match parse_u64_dec(s, i3) {
        Some(p) => p,
        None => {
            return None;
        },
    };
    let lit3 = lit_tags_vec();
    if !match_lit(s, i4, lit3.as_slice()) {
        return None;
    }
    let i5: usize = i4 + 7;
    assert(header_lit_tags().len() == 7);
    let (tags, i6) = match parse_tags(s, i5) {
        Some(p) => p,
        None => {
            return None;
        },
    };
    if i6 < s.len() && s.len() - i6 == 1 && s[i6] == 0x29 {
        let h = GrapeFileHeader { n_streams: ns, sample_rate: sr, tags };
        assert(spec_parse_header(s@) == Some(h@));
        Some(h)
    } else {
        None
    }
}

/// A GrapeFile: the header and the interleaved samples.
#[derive(Debug, Clone, PartialEq, Eq)]
pub struct GrapeFile {
    /// The header describing the streams.
    pub header: GrapeFileHeader,
    /// All samples, interleaved round-robin across streams.
    pub samples: Vec<Sample>,
}

/// Mathematical value of a GrapeFile.
pub struct FileView {
    /// The header.
    pub header: HeaderView,
    /// The interleaved samples.
    pub samples: Seq<Sample>,
}

impl View for GrapeFile {
    type V = FileView;

    open spec fn view(&self) -> FileView {
        FileView { header: self.header@, samples: self.samples@ }
    }
}

impl FileView {
    /// A file is well formed when its header is, and its samples form
    /// whole frames: one sample per stream.
    pub open spec fn wf(self) -> bool {
        &&& self.header.wf()
        &&& self.header.n_streams > 0 ==> (self.samples.len() as int) % (self.header.n_streams as int) == 0
    }
}

impl GrapeFile {
    /// A file is well formed when its header tags one stream per announced
    /// stream and the samples form whole frames.
    pub open spec fn wf(self) -> bool {
        self@.wf()
    }
}

/// Every byte is ASCII, so none is the delimiter.
pub open spec fn all_ascii(s: Seq<u8>) -> bool {
    forall|i: int| 0 <= i < s.len() ==> #[trigger] s[i] < 0x80
}

pub proof fn lemma_all_ascii_concat(a: Seq<u8>, b: Seq<u8>)
    requires
        all_ascii(a),
        all_ascii(b),
    ensures
        all_ascii(a + b),
{
    assert forall|i: int| 0 <= i < (a + b).len() implies #[trigger] (a + b)[i] < 0x80 by {
        if i < a.len() {
            assert((a + b)[i] == a[i]);
        } else {
            assert((a + b)[i] == b[i - a.len()]);
        }
    }
}

pub proof fn lemma_tag_name_ascii(t: GrapeTag)
    ensures
        all_ascii(tag_name(t)),
{
    match t {
        GrapeTag::X => assert(all_ascii(tag_name(GrapeTag::X))),
        GrapeTag::Y => assert(all_ascii(tag_name(GrapeTag::Y))),
        GrapeTag::Z => assert(all_ascii(tag_name(GrapeTag::Z))),
        GrapeTag::Azimuth => assert(all_ascii(tag_name(GrapeTag::Azimuth))),
        GrapeTag::Elevation => assert(all_ascii(tag_name(GrapeTag::Elevation))),
        GrapeTag::Range => assert(all_ascii(tag_name(GrapeTag::Range))),
        GrapeTag::Pitch => assert(all_ascii(tag_name(GrapeTag::Pitch))),
        GrapeTag::Yaw => assert(all_ascii(tag_name(GrapeTag::Yaw))),
        GrapeTag::Roll => assert(all_ascii(tag_name(GrapeTag::Roll))),
    }
}

pub proof fn lemma_tags_bytes_ascii(ts: Seq<GrapeTag>)
    ensures
        all_ascii(tags_bytes(ts)),
    decreases ts.len(),
{
    if ts.len() == 0 {
    } else if ts.len() == 1 {
        lemma_tag_name_ascii(ts[0]);
    } else {
        lemma_tags_bytes_ascii(ts.drop_last());
        lemma_tag_name_ascii(ts.last());
        assert(all_ascii(seq![0x2cu8]));
        lemma_all_ascii_concat(tags_bytes(ts.drop_last()), seq![0x2cu8]);
        lemma_all_ascii_concat(tags_bytes(ts.drop_last()) + seq![0x2cu8], tag_name(ts.last()));
    }
}

pub proof fn lemma_dec_digits_ascii(n: u64)
    ensures
        all_ascii(dec_digits(n)),
{
    lemma_dec_digits(n);
    assert forall|i: int| 0 <= i < dec_digits(n).len() implies #[trigger] dec_digits(n)[i]
        < 0x80 by {
        assert(is_digit(dec_digits(n)[i]));
    }
}

/// The header text contains no delimiter byte.
pub proof fn lemma_header_bytes_ascii(h: HeaderView)
    ensures
        all_ascii(header_bytes(h)),
{
    lemma_dec_digits_ascii(h.n_streams);
    lemma_dec_digits_ascii(h.sample_rate);
    lemma_tags_bytes_ascii(h.tags);
    assert(all_ascii(header_lit_open()));
    assert(all_ascii(header_lit_rate()));
    assert(all_ascii(header_lit_tags()));
    assert(all_ascii(header_lit_close()));
    lemma_all_ascii_concat(header_lit_open(), dec_digits(h.n_streams));
    let a2 = header_lit_open() + dec_digits(h.n_streams);
    lemma_all_ascii_concat(a2, header_lit_rate());
    let a3 = a2 + header_lit_rate();
    lemma_all_ascii_concat(a3, dec_digits(h.sample_rate));
    let a4 = a3 + dec_digits(h.sample_rate);
    lemma_all_ascii_concat(a4, header_lit_tags());
    let a5 = a4 + header_lit_tags();
    lemma_all_ascii_concat(a5, tags_bytes(h.tags));
    let a6 = a5 + tags_bytes(h.tags);
    lemma_all_ascii_concat(a6, header_lit_close());
    assert(header_bytes(h) == a6 + header_lit_close());
}

/// Index of the first delimiter byte at or after `i`, or the length.
pub open spec fn non_delim_end(s: Seq<u8>, i: int) -> int
    decreases s.len() - i,
{
    if i < 0 || i >= s.len() || s[i] == 0xff {
        i
    } else {
        non_delim_end(s, i + 1)
    }
}

pub proof fn lemma_non_delim_is(s: Seq<u8>, i: int, j: int)
    requires
        0 <= i <= j <= s.len(),
        forall|k: int| i <= k < j ==> #[trigger] s[k] != 0xff,
        j == s.len() || s[j] == 0xff,
    ensures
        non_delim_end(s, i) == j,
    decreases j - i,
{
    if i < j {
        lemma_non_delim_is(s, i + 1, j);
    }
}

pub proof fn lemma_non_delim_end(s: Seq<u8>, i: int)
    requires
        0 <= i <= s.len(),
    ensures
        i <= non_delim_end(s, i) <= s.len(),
        forall|k: int| i <= k < non_delim_end(s, i) ==> #[trigger] s[k] != 0xff,
        non_delim_end(s, i) == s.len() || s[non_delim_end(s, i)] == 0xff,
    decreases s.len() - i,
{
    if i < s.len() && s[i] != 0xff {
        lemma_non_delim_end(s, i + 1);
    }
}

/// The four big-endian bytes of one sample.
pub open spec fn be_bytes_of(x: Sample) -> Seq<u8> {
    seq![
        (x >> 24) as u8,
        ((x >> 16) & 0xff) as u8,
        ((x >> 8) & 0xff) as u8,
        (x & 0xff) as u8,
    ]
}

/// The sample denoted by four big-endian bytes.
pub open spec fn u32_of_be(b0: u8, b1: u8, b2: u8, b3: u8) -> Sample {
    ((b0 as u32) << 24) | ((b1 as u32) << 16) | ((b2 as u32) << 8) | (b3 as u32)
}

/// All samples, each as its four big-endian bytes.
pub open spec fn samples_bytes(ss: Seq<Sample>) -> Seq<u8>
    decreases ss.len(),
{
    if ss.len() == 0 {
        Seq::empty()
    } else {
        samples_bytes(ss.drop_last()) + be_bytes_of(ss.last())
    }
}

/// The samples read from a byte tail: four-byte big-endian groups; a ragged
/// tail is an error.
pub open spec fn spec_samples_of(t: Seq<u8>) -> Option<Seq<Sample>> {
    if t.len() % 4 != 0 {
        None
    } else {
        Some(Seq::new((t.len() / 4) as nat, |k: int| u32_of_be(t[4 * k], t[4 * k + 1], t[4 * k + 2], t[4 * k + 3])))
    }
}

pub proof fn lemma_be_roundtrip(x: Sample)
    ensures
        u32_of_be(
            (x >> 24) as u8,
            ((x >> 16) & 0xff) as u8,
            ((x >> 8) & 0xff) as u8,
            (x & 0xff) as u8,
        ) == x,
{
    let b0 = (x >> 24) as u8;
    let b1 = ((x >> 16) & 0xff) as u8;
    let b2 = ((x >> 8) & 0xff) as u8;
    let b3 = (x & 0xff) as u8;
    assert((((b0 as u32) << 24) | ((b1 as u32) << 16) | ((b2 as u32) << 8) | (b3 as u32)) == x)
        by (bit_vector)
        requires
            b0 == (x >> 24) as u8,
            b1 == ((x >> 16) & 0xff) as u8,
            b2 == ((x >> 8) & 0xff) as u8,
            b3 == (x & 0xff) as u8,
    ;
}

pub proof fn lemma_samples_bytes_len(ss: Seq<Sample>)
    ensures
        samples_bytes(ss).len() == 4 * ss.len(),
    decreases ss.len(),
{
    if ss.len() > 0 {
        lemma_samples_bytes_len(ss.drop_last());
    }
}

/// Reading back the bytes of a sample sequence yields the same samples.
pub proof fn lemma_samples_roundtrip(ss: Seq<Sample>)
    ensures
        spec_samples_of(samples_bytes(ss)) == Some(ss),
    decreases ss.len(),
{
    lemma_samples_bytes_len(ss);
    let b = samples_bytes(ss);
    if ss.len() == 0 {
        assert(spec_samples_of(b) == Some(Seq::new(0, |k: int| u32_of_be(b[4 * k], b[4 * k + 1], b[4 * k + 2], b[4 * k + 3]))));
        assert(Seq::new(0, |k: int| u32_of_be(b[4 * k], b[4 * k + 1], b[4 * k + 2], b[4 * k + 3])) =~= ss);
    } else {
        let pre = ss.drop_last();
        lemma_samples_roundtrip(pre);
        lemma_samples_bytes_len(pre);
        let pb = samples_bytes(pre);
        let last4 = be_bytes_of(ss.last());
        assert(b == pb + last4);
        let got = Seq::new((b.len() / 4) as nat, |k: int| u32_of_be(b[4 * k], b[4 * k + 1], b[4 * k + 2], b[4 * k + 3]));
        let before = Seq::new((pb.len() / 4) as nat, |k: int| u32_of_be(pb[4 * k], pb[4 * k + 1], pb[4 * k + 2], pb[4 * k + 3]));
        assert(before == pre);
        assert forall|k: int| 0 <= k < got.len() implies got[k] == ss[k] by {
            if k < pre.len() {
                assert(b[4 * k] == pb[4 * k]);
                assert(b[4 * k + 1] == pb[4 * k + 1]);
                assert(b[4 * k + 2] == pb[4 * k + 2]);
                assert(b[4 * k + 3] == pb[4 * k + 3]);
                assert(before[k] == pre[k]);
            } else {
                assert(k == pre.len());
                assert(b[4 * k] == last4[0]);
                assert(b[4 * k + 1] == last4[1]);
                assert(b[4 * k + 2] == last4[2]);
                assert(b[4 * k + 3] == last4[3]);
                lemma_be_roundtrip(ss.last());
            }
        }
        assert(got =~= ss);
    }
}

/// A non-empty tag list decomposes from the front: the first name, a
/// comma, then the rest.
pub proof fn lemma_tags_bytes_cons(ts: Seq<GrapeTag>)
    requires
        ts.len() >= 2,
    ensures
        tags_bytes(ts) == tag_name(ts[0]) + seq![0x2cu8] + tags_bytes(ts.drop_first()),
    decreases ts.len(),
{
    let dl = ts.drop_last();
    let df = ts.drop_first();
    if ts.len() == 2 {
        assert(dl.len() == 1 && dl[0] == ts[0]);
        assert(df.len() == 1 && df[0] == ts[1]);
        assert(ts.last() == ts[1]);
        assert(tags_bytes(dl) == tag_name(ts[0]));
        assert(tags_bytes(ts) == tags_bytes(dl) + seq![0x2cu8] + tag_name(ts.last()));
        assert(tags_bytes(ts) =~= tag_name(ts[0]) + seq![0x2cu8] + tag_name(ts[1]));
        assert(tags_bytes(df) == tag_name(ts[1]));
    } else {
        lemma_tags_bytes_cons(dl);
        assert(dl[0] == ts[0]);
        assert(dl.drop_first() =~= df.drop_last());
        assert(df.len() >= 2);
        assert(tags_bytes(df) == tags_bytes(df.drop_last()) + seq![0x2cu8] + tag_name(df.last()));
        assert(df.last() == ts.last());
        assert(tags_bytes(ts) == tags_bytes(dl) + seq![0x2cu8] + tag_name(ts.last()));
        assert(tags_bytes(dl) == tag_name(ts[0]) + seq![0x2cu8] + tags_bytes(df.drop_last()));
        assert((tag_name(ts[0]) + seq![0x2cu8] + tags_bytes(df.drop_last())) + seq![0x2cu8]
            + tag_name(ts.last()) =~= tag_name(ts[0]) + seq![0x2cu8] + (tags_bytes(df.drop_last())
            + seq![0x2cu8] + tag_name(df.last())));
    }
}

/// Every tag name is a non-empty run of letters.
pub proof fn lemma_tag_name_alnum(t: GrapeTag)
    ensures
        tag_name(t).len() >= 1,
        forall|k: int| 0 <= k < tag_name(t).len() ==> is_alnum(#[trigger] tag_name(t)[k]),
{
    match t {
        GrapeTag::X => assert(forall|k: int|
            0 <= k < tag_name(GrapeTag::X).len() ==> is_alnum(#[trigger] tag_name(GrapeTag::X)[k])),
        GrapeTag::Y => assert(forall|k: int|
            0 <= k < tag_name(GrapeTag::Y).len() ==> is_alnum(#[trigger] tag_name(GrapeTag::Y)[k])),
        GrapeTag::Z => assert(forall|k: int|
            0 <= k < tag_name(GrapeTag::Z).len() ==> is_alnum(#[trigger] tag_name(GrapeTag::Z)[k])),
        GrapeTag::Azimuth => assert(forall|k: int|
            0 <= k < tag_name(GrapeTag::Azimuth).len() ==> is_alnum(
                #[trigger] tag_name(GrapeTag::Azimuth)[k],
            )),
        GrapeTag::Elevation => assert(forall|k: int|
            0 <= k < tag_name(GrapeTag::Elevation).len() ==> is_alnum(
                #[trigger] tag_name(GrapeTag::Elevation)[k],
            )),
        GrapeTag::Range => assert(forall|k: int|
            0 <= k < tag_name(GrapeTag::Range).len() ==> is_alnum(
                #[trigger] tag_name(GrapeTag::Range)[k],
            )),
        GrapeTag::Pitch => assert(forall|k: int|
            0 <= k < tag_name(GrapeTag::Pitch).len() ==> is_alnum(
                #[trigger] tag_name(GrapeTag::Pitch)[k],
            )),
        GrapeTag::Yaw => assert(forall|k: int|
            0 <= k < tag_name(GrapeTag::Yaw).len() ==> is_alnum(
                #[trigger] tag_name(GrapeTag::Yaw)[k],
            )),
        GrapeTag::Roll => assert(forall|k: int|
            0 <= k < tag_name(GrapeTag::Roll).len() ==> is_alnum(
                #[trigger] tag_name(GrapeTag::Roll)[k],
            )),
    }
}

/// Reading a name back gives the tag it came from.
pub proof fn lemma_tag_of_name_inverse(t: GrapeTag)
    ensures
        tag_of_name(tag_name(t)) == Some(t),
{
    assert(tag_name(GrapeTag::X).len() == 1);
    assert(tag_name(GrapeTag::Y).len() == 1);
    assert(tag_name(GrapeTag::Z).len() == 1);
    assert(tag_name(GrapeTag::Azimuth).len() == 7);
    assert(tag_name(GrapeTag::Elevation).len() == 9);
    assert(tag_name(GrapeTag::Range).len() == 5);
    assert(tag_name(GrapeTag::Pitch).len() == 5);
    assert(tag_name(GrapeTag::Yaw).len() == 3);
    assert(tag_name(GrapeTag::Roll).len() == 4);
    match t {
        GrapeTag::X => assert(tag_of_name(tag_name(GrapeTag::X)) == Some(GrapeTag::X)),
        GrapeTag::Y => {
            assert(tag_name(GrapeTag::Y)[0] != tag_name(GrapeTag::X)[0]);
            assert(tag_of_name(tag_name(GrapeTag::Y)) == Some(GrapeTag::Y));
        },
        GrapeTag::Z => {
            assert(tag_name(GrapeTag::Z)[0] != tag_name(GrapeTag::X)[0]);
            assert(tag_name(GrapeTag::Z)[0] != tag_name(GrapeTag::Y)[0]);
            assert(tag_of_name(tag_name(GrapeTag::Z)) == Some(GrapeTag::Z));
        },
        GrapeTag::Azimuth => assert(tag_of_name(tag_name(GrapeTag::Azimuth)) == Some(
            GrapeTag::Azimuth,
        )),
        GrapeTag::Elevation => assert(tag_of_name(tag_name(GrapeTag::Elevation)) == Some(
            GrapeTag::Elevation,
        )),
        GrapeTag::Range => assert(tag_of_name(tag_name(GrapeTag::Range)) == Some(GrapeTag::Range)),
        GrapeTag::Pitch => {
            assert(tag_name(GrapeTag::Pitch)[0] != tag_name(GrapeTag::Range)[0]);
            assert(tag_of_name(tag_name(GrapeTag::Pitch)) == Some(GrapeTag::Pitch));
        },
        GrapeTag::Yaw => assert(tag_of_name(tag_name(GrapeTag::Yaw)) == Some(GrapeTag::Yaw)),
        GrapeTag::Roll => assert(tag_of_name(tag_name(GrapeTag::Roll)) == Some(GrapeTag::Roll)),
    }
}

/// Parsing a written non-empty tag list, followed by the closing bracket,
/// yields the tags back.
pub proof fn lemma_tags_ne_roundtrip(s: Seq<u8>, i: int, ts: Seq<GrapeTag>)
    requires
        ts.len() >= 1,
        0 <= i,
        i + tags_bytes(ts).len() < s.len(),
        s.subrange(i, i + tags_bytes(ts).len()) == tags_bytes(ts),
        s[i + tags_bytes(ts).len()] == 0x5d,
    ensures
        spec_parse_tags_ne(s, i) == Some((ts, i + tags_bytes(ts).len() + 1)),
    decreases ts.len(),
{
    let name = tag_name(ts[0]);
    let tb = tags_bytes(ts);
    lemma_tag_name_alnum(ts[0]);
    if ts.len() >= 2 {
        lemma_tags_bytes_cons(ts);
    }
    assert(tb.len() >= name.len());
    assert forall|k: int| 0 <= k < name.len() implies tb[k] == name[k] by {
        if ts.len() == 1 {
        } else {
            assert(tb == name + seq![0x2cu8] + tags_bytes(ts.drop_first()));
            assert(tb[k] == (name + seq![0x2cu8])[k]);
        }
    }
    // the name's run of letters ends at the comma or the bracket
    let e = i + name.len();
    assert forall|k: int| i <= k < e implies is_alnum(s[k]) by {
        assert(s[k] == tb[k - i]);
        assert(tb[k - i] == name[k - i]);
    }
    let after = if ts.len() == 1 {
        0x5du8
    } else {
        0x2cu8
    };
    assert(s[e] == after) by {
        if ts.len() == 1 {
            assert(name.len() == tb.len());
        } else {
            assert(tb == name + seq![0x2cu8] + tags_bytes(ts.drop_first()));
            assert(tb[name.len() as int] == 0x2c);
            assert(s[e] == tb[name.len() as int]);
        }
    }
    assert(!is_alnum(after));
    crate::text::lemma_alnum_run_is(s, i, e);
    assert(s.subrange(i, e) =~= name);
    lemma_tag_of_name_inverse(ts[0]);
    assert(is_alnum(s[i]));
    if ts.len() == 1 {
        assert(spec_parse_tags_ne(s, i) == Some((seq![ts[0]], e + 1)));
        assert(seq![ts[0]] =~= ts);
    } else {
        let df = ts.drop_first();
        let i2 = e + 1;
        assert(tb == name + seq![0x2cu8] + tags_bytes(df));
        assert(tb.len() == name.len() + 1 + tags_bytes(df).len());
        assert(s.subrange(i2, i2 + tags_bytes(df).len()) =~= tags_bytes(df)) by {
            assert forall|m: int| 0 <= m < tags_bytes(df).len() implies s.subrange(
                i2,
                i2 + tags_bytes(df).len(),
            )[m] == tags_bytes(df)[m] by {
                assert(s.subrange(i2, i2 + tags_bytes(df).len())[m] == s[i2 + m]);
                assert(s[i2 + m] == tb[name.len() + 1 + m]);
                assert(tb[name.len() + 1 + m] == tags_bytes(df)[m]);
            }
        }
        assert(s[i2 + tags_bytes(df).len()] == 0x5d);
        lemma_tags_ne_roundtrip(s, i2, df);
        assert(spec_parse_tags_ne(s, i) == Some((seq![ts[0]] + df, i2 + tags_bytes(df).len() + 1)));
        assert(seq![ts[0]] + df =~= ts);
    }
}

/// Parsing a written tag list, followed by the closing bracket, yields the
/// tags back.
pub proof fn lemma_tags_roundtrip(s: Seq<u8>, i: int, ts: Seq<GrapeTag>)
    requires
        0 <= i,
        i + tags_bytes(ts).len() < s.len(),
        s.subrange(i, i + tags_bytes(ts).len()) == tags_bytes(ts),
        s[i + tags_bytes(ts).len()] == 0x5d,
    ensures
        spec_parse_tags(s, i) == Some((ts, i + tags_bytes(ts).len() + 1)),
{
    if ts.len() == 0 {
        assert(s[i] == 0x5d);
        assert(spec_parse_tags(s, i) == Some((Seq::<GrapeTag>::empty(), i + 1)));
        assert(Seq::<GrapeTag>::empty() =~= ts);
    } else {
        lemma_tag_name_alnum(ts[0]);
        lemma_tags_ne_roundtrip(s, i, ts);
        let name = tag_name(ts[0]);
        assert(s[i] == tags_bytes(ts)[0]);
        assert(tags_bytes(ts)[0] == name[0]) by {
            if ts.len() >= 2 {
                lemma_tags_bytes_cons(ts);
                assert(tags_bytes(ts)[0] == (name + seq![0x2cu8])[0]);
            }
        }
        assert(is_alnum(s[i]));
        assert(s[i] != 0x5d);
    }
}

/// Parsing a written header yields the header back.
pub proof fn lemma_header_roundtrip(h: HeaderView)
    ensures
        spec_parse_header(header_bytes(h)) == Some(h),
{
    let l1 = header_lit_open();
    let d1 = dec_digits(h.n_streams);
    let l2 = header_lit_rate();
    let d2 = dec_digits(h.sample_rate);
    let l3 = header_lit_tags();
    let tb = tags_bytes(h.tags);
    let l4 = header_lit_close();
    let s = header_bytes(h);
    lemma_dec_digits(h.n_streams);
    lemma_dec_digits(h.sample_rate);
    let o1 = 11int;
    let o2 = o1 + d1.len();
    let o3 = o2 + 13;
    let o4 = o3 + d2.len();
    let o5 = o4 + 7;
    let o6 = o5 + tb.len();
    assert(s.len() == o6 + 2);
    assert(s.subrange(0, 11) =~= l1);
    assert(s.subrange(o1, o2) =~= d1);
    assert(s.subrange(o2, o3) =~= l2);
    assert(s.subrange(o3, o4) =~= d2);
    assert(s.subrange(o4, o5) =~= l3);
    assert(s.subrange(o5, o6) =~= tb);
    assert(s[o6] == 0x5d);
    assert(s[o6 + 1] == 0x29);
    // the opening literal
    assert(match_at(s, 0, l1));
    // the stream count: its digit run ends at the comma of the next literal
    assert forall|k: int| o1 <= k < o2 implies is_digit(s[k]) by {
        assert(s[k] == d1[k - o1]);
    }
    assert(s[o2] == 0x2c);
    lemma_digit_run_is(s, o1, o2);
    assert(s.subrange(o1, o2) == d1);
    assert(dec_value(s.subrange(o1, o2)) == h.n_streams);
    assert(spec_u64_at(s, o1) == Some((h.n_streams as int, o2)));
    // the rate literal
    assert(match_at(s, o2, l2));
    // the sample rate
    assert forall|k: int| o3 <= k < o4 implies is_digit(s[k]) by {
        assert(s[k] == d2[k - o3]);
    }
    assert(s[o4] == 0x2c);
    lemma_digit_run_is(s, o3, o4);
    assert(dec_value(s.subrange(o3, o4)) == h.sample_rate);
    assert(spec_u64_at(s, o3) == Some((h.sample_rate as int, o4)));
    // the tags literal and the tag list
    assert(match_at(s, o4, l3));
    lemma_tags_roundtrip(s, o5, h.tags);
    assert(spec_parse_tags(s, o5) == Some((h.tags, o6 + 1)));
    // the closing parenthesis ends the input
    assert(spec_parse_header(s) == Some(
        HeaderView { n_streams: h.n_streams, sample_rate: h.sample_rate, tags: h.tags },
    ));
}

/// Round trip: a well-formed file read back from its own bytes is itself.
pub proof fn lemma_round_trip(f: FileView)
    requires
        f.wf(),
    ensures
        spec_from_bytes(spec_to_bytes(f)) == Ok::<FileView, GrapeFileError>(f),
{
    let hb = header_bytes(f.header);
    let sb = samples_bytes(f.samples);
    let s = spec_to_bytes(f);
    lemma_header_bytes_ascii(f.header);
    assert(s.len() == hb.len() + 1 + sb.len());
    assert forall|k: int| 0 <= k < hb.len() implies #[trigger] s[k] != 0xff by {
        assert(s[k] == hb[k]);
        assert(hb[k] < 0x80);
    }
    assert(s[hb.len() as int] == 0xff);
    lemma_non_delim_is(s, 0, hb.len() as int);
    let d = hb.len() as int;
    assert(s.subrange(0, d) =~= hb);
    lemma_header_roundtrip(f.header);
    assert(spec_parse_header(s.subrange(0, d)) == Some(f.header));
    assert(s.subrange(d + 1, s.len() as int) =~= sb);
    lemma_samples_roundtrip(f.samples);
    assert(spec_from_bytes(s) == Ok::<FileView, GrapeFileError>(
        FileView { header: f.header, samples: f.samples },
    ));
}

/// The byte image of a file: header, delimiter, samples.
pub open spec fn spec_to_bytes(f: FileView) -> Seq<u8> {
    header_bytes(f.header) + seq![0xffu8] + samples_bytes(f.samples)
}

/// Reading a file: split at the first delimiter byte, parse the header
/// from the prefix (it must also announce as many streams as it tags), and
/// take the rest as four-byte big-endian samples.
pub open spec fn spec_from_bytes(s: Seq<u8>) -> Result<FileView, GrapeFileError> {
    let d = non_delim_end(s, 0);
    if d == s.len() {
        Err(GrapeFileError::NoDelimiter)
    } else {
        match spec_parse_header(s.subrange(0, d)) {
            None => Err(GrapeFileError::Header),
            Some(h) => if h.tags.len() != h.n_streams {
                Err(GrapeFileError::Header)
            } else {
                match spec_samples_of(s.subrange(d + 1, s.len() as int)) {
                    None => Err(GrapeFileError::TryInto),
                    Some(ss) => if h.n_streams > 0 && (ss.len() as int) % (h.n_streams as int) != 0 {
                        Err(GrapeFileError::PartialFrame)
                    } else {
                        Ok(FileView { header: h, samples: ss })
                    },
                }
            },
        }
    }
}

impl GrapeFile {
    /// Serializes the file: the header text, the delimiter byte, then each
    /// sample as four big-endian bytes.
    pub fn to_bytes(&self) -> (out: Vec<u8>)
        ensures
            out@ == spec_to_bytes(self@),
    {
        let mut out = encode_header(&self.header);
        out.push(0xff);
        let ghost prefix = out@;
        let n = self.samples.len();
        let mut idx: usize = 0;
        while idx < n
            invariant
                n == self.samples@.len(),
                0 <= idx <= n,
                out@ == prefix + samples_bytes(self.samples@.subrange(0, idx as int)),
            decreases n - idx,
        {
            let x = self.samples[idx];
            proof {
                assert(x >> 24 < 256 && (x >> 16) & 0xff < 256 && (x >> 8) & 0xff < 256 && x
                    & 0xff < 256) by (bit_vector);
            }
            out.push((x >> 24) as u8);
            out.push(((x >> 16) & 0xff) as u8);
            out.push(((x >> 8) & 0xff) as u8);
            out.push((x & 0xff) as u8);
            proof {
                let sub = self.samples@.subrange(0, idx + 1);
                assert(sub.drop_last() =~= self.samples@.subrange(0, idx as int));
                assert(sub.last() == x);
                assert(out@ =~= prefix + samples_bytes(sub));
            }
            idx = idx + 1;
        }
        assert(self.samples@.subrange(0, n as int) =~= self.samples@);
        assert(out@ =~= spec_to_bytes(self@));
        out
    }

    /// Deserializes a file from its bytes, as `spec_from_bytes` says.
    pub fn from_bytes(bytes: &[u8]) -> (r: Result<GrapeFile, GrapeFileError>)
        ensures
            match r {
                Ok(f) => spec_from_bytes(bytes@) == Ok::<FileView, GrapeFileError>(f@) && f.wf(),
                Err(e) => spec_from_bytes(bytes@) == Err::<FileView, GrapeFileError>(e),
            },
    {
        proof {
            lemma_non_delim_end(bytes@, 0);
        }
        let ghost dd = non_delim_end(bytes@, 0);
        let n = bytes.len();
        let mut d: usize = 0;
        while d < n && bytes[d] != 0xff
            invariant
                n == bytes@.len(),
                0 <= d <= n,
                d <= dd <= n,
                dd == non_delim_end(bytes@, d as int),
            decreases n - d,
        {
            d = d + 1;
            proof {
                lemma_non_delim_end(bytes@, d as int);
            }
        }
        if d == n {
            return Err(GrapeFileError::NoDelimiter);
        }
        let header_slice = vstd::slice::slice_subrange(bytes, 0, d);
        let header = match parse_header(header_slice) {
            Some(h) => h,
            None => {
                return Err(GrapeFileError::Header);
            },
        };
        if header.n_streams != header.tags.len() as u64 {
            return Err(GrapeFileError::Header);
        }
        let tail_len = n - (d + 1);
        let ghost tail = bytes@.subrange(d + 1, n as int);
        if tail_len % 4 != 0 {
            return Err(GrapeFileError::TryInto);
        }
        let m = tail_len / 4;
        let mut samples: Vec<Sample> = Vec::new();
        let mut k: usize = 0;
        while k < m
            invariant
                n == bytes@.len(),
                0 <= k <= m,
                d < n,
                tail == bytes@.subrange(d + 1, n as int),
                tail.len() == 4 * m,
                samples@ == Seq::new(
                    k as nat,
                    |j: int| u32_of_be(tail[4 * j], tail[4 * j + 1], tail[4 * j + 2], tail[4 * j + 3]),
                ),
            decreases m - k,
        {
            let p = d + 1 + 4 * k;
            let b0 = bytes[p];
            let b1 = bytes[p + 1];
            let b2 = bytes[p + 2];
            let b3 = bytes[p + 3];
            let x: u32 = ((b0 as u32) << 24) | ((b1 as u32) << 16) | ((b2 as u32) << 8) | (
            b3 as u32);
            samples.push(x);
            proof {
                assert(tail[4 * k as int] == bytes@[d + 1 + 4 * k]);
                assert(tail[4 * k + 1] == bytes@[d + 1 + 4 * k + 1]);
                assert(tail[4 * k + 2] == bytes@[d + 1 + 4 * k + 2]);
                assert(tail[4 * k + 3] == bytes@[d + 1 + 4 * k + 3]);
                assert(samples@ =~= Seq::new(
                    (k + 1) as nat,
                    |j: int| u32_of_be(tail[4 * j], tail[4 * j + 1], tail[4 * j + 2], tail[4 * j + 3]),
                ));
            }
            k = k + 1;
        }
        proof {
            assert(spec_samples_of(tail) == Some(samples@));
        }
        let n_streams = header.tags.len();
        if n_streams > 0 && samples.len() % n_streams != 0 {
            return Err(GrapeFileError::PartialFrame);
        }
        Ok(GrapeFile { header, samples })
    }
}

/// Accumulates named streams and a sample rate before building a file.
#[derive(Debug, Clone)]
pub struct GrapeFileBuilder {
    /// Samples per second to record in the header.
    pub sample_rate: u64,
    /// The streams added so far, each with its tag.
    pub streams: Vec<(GrapeTag, Vec<Sample>)>,
}

/// Mathematical value of a builder.
pub struct BuilderView {
    /// Samples per second.
    pub sample_rate: u64,
    /// The streams added so far.
    pub streams: Seq<(GrapeTag, Seq<Sample>)>,
}

impl View for GrapeFileBuilder {
    type V = BuilderView;

    open spec fn view(&self) -> BuilderView {
        BuilderView {
            sample_rate: self.sample_rate,
            streams: self.streams@.map_values(|p: (GrapeTag, Vec<Sample>)| (p.0, p.1@)),
        }
    }
}

/// The shortest stream length among a non-empty set of streams.
pub open spec fn min_stream_len(ss: Seq<(GrapeTag, Seq<Sample>)>) -> nat
    decreases ss.len(),
{
    if ss.len() <= 1 {
        ss[0].1.len()
    } else {
        let m = min_stream_len(ss.drop_last());
        if ss.last().1.len() < m {
            ss.last().1.len()
        } else {
            m
        }
    }
}

/// The longest stream length; zero when there are no streams.
pub open spec fn max_stream_len(ss: Seq<(GrapeTag, Seq<Sample>)>) -> nat
    decreases ss.len(),
{
    if ss.len() == 0 {
        0
    } else {
        let m = max_stream_len(ss.drop_last());
        if ss.last().1.len() > m {
            ss.last().1.len()
        } else {
            m
        }
    }
}

pub proof fn lemma_min_stream_len_le(ss: Seq<(GrapeTag, Seq<Sample>)>, i: int)
    requires
        0 <= i < ss.len(),
    ensures
        min_stream_len(ss) <= ss[i].1.len(),
    decreases ss.len(),
{
    if ss.len() > 1 && i < ss.len() - 1 {
        lemma_min_stream_len_le(ss.drop_last(), i);
    }
}

/// The sample of `s` at `j`, extended past its end by its last value, or
/// by a zero bit pattern when the stream is empty.
pub open spec fn padded_sample(s: Seq<Sample>, j: int) -> Sample {
    if 0 <= j < s.len() {
        s[j]
    } else if s.len() > 0 {
        s[s.len() - 1]
    } else {
        0
    }
}

/// The file built by truncating every stream to the shortest length and
/// interleaving round-robin.
pub open spec fn spec_build_truncate(b: BuilderView) -> FileView {
    let n = b.streams.len();
    let m = if n == 0 {
        0
    } else {
        min_stream_len(b.streams) as int
    };
    FileView {
        header: HeaderView {
            n_streams: n as u64,
            sample_rate: b.sample_rate,
            tags: b.streams.map_values(|p: (GrapeTag, Seq<Sample>)| p.0),
        },
        samples: Seq::new((m * n) as nat, |k: int| b.streams[k % (n as int)].1[k / (n as int)]),
    }
}

/// The file built by extending every stream to the longest length with its
/// last value (or zero) and interleaving round-robin.
pub open spec fn spec_build_extend(b: BuilderView) -> FileView {
    let n = b.streams.len();
    let m = max_stream_len(b.streams) as int;
    FileView {
        header: HeaderView {
            n_streams: n as u64,
            sample_rate: b.sample_rate,
            tags: b.streams.map_values(|p: (GrapeTag, Seq<Sample>)| p.0),
        },
        samples: Seq::new(
            (m * n) as nat,
            |k: int| padded_sample(b.streams[k % (n as int)].1, k / (n as int)),
        ),
    }
}

/// All streams have one length.
pub open spec fn equal_stream_lens(ss: Seq<(GrapeTag, Seq<Sample>)>) -> bool {
    forall|i: int| 0 <= i < ss.len() ==> #[trigger] ss[i].1.len() == ss[0].1.len()
}

impl GrapeFile {
    /// Makes a builder with no streams and a default rate of 1000 samples
    /// per second.
    pub fn builder() -> (r: GrapeFileBuilder)
        ensures
            r@.sample_rate == 1000,
            r@.streams.len() == 0,
    {
        GrapeFileBuilder { sample_rate: 1000, streams: Vec::new() }
    }
}

impl Default for GrapeFileBuilder {
    /// Same as `GrapeFile::builder`.
    fn default() -> (r: Self)
        ensures
            r@.sample_rate == 1000,
            r@.streams.len() == 0,
    {
        GrapeFileBuilder { sample_rate: 1000, streams: Vec::new() }
    }
}

impl GrapeFileBuilder {
    /// Sets the sample rate recorded in the header.
    pub fn set_samplerate(self, sample_rate: u64) -> (r: Self)
        ensures
            r@.sample_rate == sample_rate,
            r@.streams == self@.streams,
    {
        GrapeFileBuilder { sample_rate, streams: self.streams }
    }

    /// Adds a tagged stream.
    pub fn add_stream(self, stream: &[Sample], tag: GrapeTag) -> (r: Self)
        ensures
            r@.sample_rate == self@.sample_rate,
            r@.streams == self@.streams.push((tag, stream@)),
    {
        let mut streams = self.streams;
        let copy = vstd::slice::slice_to_vec(stream);
        streams.push((tag, copy));
        let r = GrapeFileBuilder { sample_rate: self.sample_rate, streams };
        proof {
            assert(r@.streams =~= self@.streams.push((tag, stream@)));
        }
        r
    }

    /// Removes all streams.
    pub fn clear_streams(self) -> (r: Self)
        ensures
            r@.sample_rate == self@.sample_rate,
            r@.streams.len() == 0,
    {
        GrapeFileBuilder { sample_rate: self.sample_rate, streams: Vec::new() }
    }

    /// Collects the tags of the streams, in order.
    fn collect_tags(&self) -> (tags: Vec<GrapeTag>)
        ensures
            tags@ == self@.streams.map_values(|p: (GrapeTag, Seq<Sample>)| p.0),
    {
        let mut tags: Vec<GrapeTag> = Vec::new();
        let n = self.streams.len();
        let mut i: usize = 0;
        while i < n
            invariant
                n == self.streams@.len(),
                0 <= i <= n,
                tags@.len() == i,
                forall|j: int| 0 <= j < i ==> tags@[j] == self@.streams[j].0,
            decreases n - i,
        {
            tags.push(self.streams[i].0);
            i = i + 1;
        }
        assert(tags@ =~= self@.streams.map_values(|p: (GrapeTag, Seq<Sample>)| p.0));
        tags
    }

    /// Builds a file, truncating all streams to the shortest length.
    pub fn build_truncate(self) -> (r: GrapeFile)
        ensures
            r@ == spec_build_truncate(self@),
            r.wf(),
    {
        let tags = self.collect_tags();
        let n = self.streams.len();
        let mut samples: Vec<Sample> = Vec::new();
        if n == 0 {
            let f = GrapeFile {
                header: GrapeFileHeader {
                    n_streams: 0,
                    sample_rate: self.sample_rate,
                    tags,
                },
                samples,
            };
            proof {
                assert(f@.samples =~= spec_build_truncate(self@).samples);
            }
            return f;
        }
        let mut m: usize = self.streams[0].1.len();
        let mut i: usize = 1;
        while i < n
            invariant
                n == self.streams@.len(),
                1 <= i <= n,
                m == min_stream_len(self@.streams.subrange(0, i as int)),
            decreases n - i,
        {
            let len_i = self.streams[i].1.len();
            proof {
                let sub = self@.streams.subrange(0, i + 1);
                assert(sub.drop_last() =~= self@.streams.subrange(0, i as int));
                assert(sub.last().1.len() == len_i);
            }
            if len_i < m {
                m = len_i;
            }
            i = i + 1;
        }
        assert(self@.streams.subrange(0, n as int) =~= self@.streams);
        let ghost whole = Seq::new(
            (m * n) as nat,
            |k: int| self@.streams[k % (n as int)].1[k / (n as int)],
        );
        let mut si: usize = 0;
        while si < m
            invariant
                n == self.streams@.len(),
                n >= 1,
                0 <= si <= m,
                m == min_stream_len(self@.streams),
                whole == Seq::new(
                    (m * n) as nat,
                    |k: int| self@.streams[k % (n as int)].1[k / (n as int)],
                ),
                samples@.len() == si * n,
                forall|k: int| 0 <= k < si * n ==> samples@[k] == whole[k],
            decreases m - si,
        {
            let mut j: usize = 0;
            while j < n
                invariant
                    n == self.streams@.len(),
                    n >= 1,
                    0 <= si < m,
                    0 <= j <= n,
                    m == min_stream_len(self@.streams),
                    whole == Seq::new(
                        (m * n) as nat,
                        |k: int| self@.streams[k % (n as int)].1[k / (n as int)],
                    ),
                    samples@.len() == si * n + j,
                    forall|k: int| 0 <= k < si * n + j ==> samples@[k] == whole[k],
                decreases n - j,
            {
                proof {
                    lemma_min_stream_len_le(self@.streams, j as int);
                    vstd::arithmetic::div_mod::lemma_fundamental_div_mod_converse(
                        si * n + j,
                        n as int,
                        si as int,
                        j as int,
                    );
                    assert(si * n + j < m * n) by (nonlinear_arith)
                        requires
                            0 <= si < m,
                            0 <= j < n,
                    ;
                }
                let row = &self.streams[j];
                samples.push(row.1[si]);
                j = j + 1;
            }
            si = si + 1;
            proof {
                assert(si * n == (si - 1) * n + n) by (nonlinear_arith);
            }
        }
        let f = GrapeFile {
            header: GrapeFileHeader {
                n_streams: n as u64,
                sample_rate: self.sample_rate,
                tags,
            },
            samples,
        };
        proof {
            assert(f@.samples =~= whole);
            vstd::arithmetic::div_mod::lemma_mod_multiples_basic(m as int, n as int);
        }
        f
    }

    /// Builds a file, extending all streams to the longest length by
    /// repeating each stream's last value, or a zero bit pattern when a
    /// stream is empty.
    pub fn build_extend(self) -> (r: GrapeFile)
        ensures
            r@ == spec_build_extend(self@),
            r.wf(),
    {
        let tags = self.collect_tags();
        let n = self.streams.len();
        let mut samples: Vec<Sample> = Vec::new();
        if n == 0 {
            let f = GrapeFile {
                header: GrapeFileHeader {
                    n_streams: 0,
                    sample_rate: self.sample_rate,
                    tags,
                },
                samples,
            };
            proof {
                assert(max_stream_len(self@.streams) == 0);
                assert(f@.samples =~= spec_build_extend(self@).samples);
            }
            return f;
        }
        let mut m: usize = 0;
        let mut i: usize = 0;
        while i < n
            invariant
                n == self.streams@.len(),
                0 <= i <= n,
                m == max_stream_len(self@.streams.subrange(0, i as int)),
            decreases n - i,
        {
            let len_i = self.streams[i].1.len();
            proof {
                let sub = self@.streams.subrange(0, i + 1);
                assert(sub.drop_last() =~= self@.streams.subrange(0, i as int));
                assert(sub.last().1.len() == len_i);
            }
            if len_i > m {
                m = len_i;
            }
            i = i + 1;
        }
        assert(self@.streams.subrange(0, n as int) =~= self@.streams);
        let ghost whole = Seq::new(
            (m * n) as nat,
            |k: int| padded_sample(self@.streams[k % (n as int)].1, k / (n as int)),
        );
        let mut si: usize = 0;
        while si < m
            invariant
                n == self.streams@.len(),
                n >= 1,
                0 <= si <= m,
                m == max_stream_len(self@.streams),
                whole == Seq::new(
                    (m * n) as nat,
                    |k: int| padded_sample(self@.streams[k % (n as int)].1, k / (n as int)),
                ),
                samples@.len() == si * n,
                forall|k: int| 0 <= k < si * n ==> samples@[k] == whole[k],
            decreases m - si,
        {
            let mut j: usize = 0;
            while j < n
                invariant
                    n == self.streams@.len(),
                    n >= 1,
                    0 <= si < m,
                    0 <= j <= n,
                    m == max_stream_len(self@.streams),
                    whole == Seq::new(
                        (m * n) as nat,
                        |k: int| padded_sample(self@.streams[k % (n as int)].1, k / (n as int)),
                    ),
                    samples@.len() == si * n + j,
                    forall|k: int| 0 <= k < si * n + j ==> samples@[k] == whole[k],
                decreases n - j,
            {
                proof {
                    vstd::arithmetic::div_mod::lemma_fundamental_div_mod_converse(
                        si * n + j,
                        n as int,
                        si as int,
                        j as int,
                    );
                    assert(si * n + j < m * n) by (nonlinear_arith)
                        requires
                            0 <= si < m,
                            0 <= j < n,
                    ;
                }
                let row = &self.streams[j];
                let v: Sample = if si < row.1.len() {
                    row.1[si]
                } else if row.1.len() > 0 {
                    row.1[row.1.len() - 1]
                } else {
                    0
                };
                samples.push(v);
                j = j + 1;
            }
            si = si + 1;
            proof {
                assert(si * n == (si - 1) * n + n) by (nonlinear_arith);
            }
        }
        let f = GrapeFile {
            header: GrapeFileHeader {
                n_streams: n as u64,
                sample_rate: self.sample_rate,
                tags,
            },
            samples,
        };
        proof {
            assert(f@.samples =~= whole);
            vstd::arithmetic::div_mod::lemma_mod_multiples_basic(m as int, n as int);
        }
        f
    }

    /// Builds a file when all streams have one length, and reports
    /// unequal lengths otherwise.
    pub fn build(self) -> (r: Result<GrapeFile, GrapeFileError>)
        ensures
            match r {
                Ok(f) => equal_stream_lens(self@.streams) && f@ == spec_build_truncate(self@)
                    && f.wf(),
                Err(e) => !equal_stream_lens(self@.streams) && e
                    == GrapeFileError::UnequalSampleBufferLengths,
            },
    {
        let n = self.streams.len();
        let mut i: usize = 0;
        while i < n
            invariant
                n == self.streams@.len(),
                0 <= i <= n,
                forall|j: int| 0 <= j < i ==> #[trigger] self@.streams[j].1.len()
                    == self@.streams[0].1.len(),
            decreases n - i,
        {
            if self.streams[i].1.len() != self.streams[0].1.len() {
                proof {
                    assert(self@.streams[i as int].1.len() != self@.streams[0].1.len());
                }
                return Err(GrapeFileError::UnequalSampleBufferLengths);
            }
            i = i + 1;
        }
        Ok(self.build_truncate())
    }
}

/// How many samples stream `i` has when `len` samples interleave `n`
/// streams: the indices congruent to `i`.
pub open spec fn stream_count(len: int, n: int, i: int) -> int {
    if i < len {
        (len - i - 1) / n + 1
    } else {
        0
    }
}

/// Stream `i` of the interleaved samples: every `n`-th sample starting at
/// `i`.
pub open spec fn raw_stream(samples: Seq<Sample>, n: int, i: int) -> Seq<Sample> {
    Seq::new(stream_count(samples.len() as int, n, i) as nat, |j: int| samples[j * n + i])
}

/// The de-interleaved streams of a file, each with its tag.
pub open spec fn spec_streams(f: FileView) -> Seq<(GrapeTag, Seq<Sample>)> {
    let n = f.header.tags.len() as int;
    Seq::new(n as nat, |i: int| (f.header.tags[i], raw_stream(f.samples, n, i)))
}

/// The consecutive non-overlapping chunks of `p` samples whose means form
/// a decimated stream; the final chunk may be shorter.
pub open spec fn spec_chunks(s: Seq<Sample>, p: int) -> Seq<Seq<Sample>> {
    Seq::new(
        (((s.len() + p - 1) / p) as nat),
        |j: int| s.subrange(j * p, if (j + 1) * p <= s.len() { (j + 1) * p } else { s.len() as int }),
    )
}

/// The consecutive sample pairs that an interpolated stream draws its
/// segments from: the final sample has no successor and starts none.
pub open spec fn spec_segments(s: Seq<Sample>) -> Seq<(Sample, Sample)> {
    Seq::new(if s.len() == 0 { 0 } else { (s.len() - 1) as nat }, |j: int| (s[j], s[j + 1]))
}

/// The requested rate is a lower rate reachable by decimation: the native
/// rate is an exact multiple of it.
pub open spec fn exact_decimation(native: u64, sample_rate: u64) -> bool {
    1 <= sample_rate < native && (native as int) % (sample_rate as int) == 0
}

/// The requested rate is a higher rate reachable by interpolation: it is
/// an exact multiple of the native rate.
pub open spec fn exact_interpolation(native: u64, sample_rate: u64) -> bool {
    1 <= native < sample_rate && (sample_rate as int) % (native as int) == 0
}

/// What `streams_with_sample_rate` returns for a file and a requested
/// rate. At the native rate the streams come back unchanged; at an exact
/// divisor of the native rate each stream becomes its chunks of
/// `native/requested` samples; at an exact multiple each stream becomes
/// its consecutive pairs together with the factor `requested/native`; any
/// other ratio is rejected with a typed error.
pub open spec fn resampled_matches(
    f: FileView,
    sample_rate: u64,
    r: Result<Resampled, GrapeFileError>,
) -> bool {
    let native = f.header.sample_rate;
    let streams = spec_streams(f);
    match r {
        Ok(Resampled::Same(v)) => sample_rate == native && v@.len() == streams.len() && forall|
            i: int,
        |
            0 <= i < v@.len() ==> #[trigger] v@[i].0 == streams[i].0 && v@[i].1@ == streams[i].1,
        Ok(Resampled::Decimated(v)) => exact_decimation(native, sample_rate) && v@.len()
            == streams.len() && (forall|i: int|
            0 <= i < v@.len() ==> #[trigger] v@[i].0 == streams[i].0 && v@[i].1@.len()
                == spec_chunks(streams[i].1, native as int / sample_rate as int).len()) && (forall|
            i: int,
            j: int,
        |
            0 <= i < v@.len() && 0 <= j < spec_chunks(
                streams[i].1,
                native as int / sample_rate as int,
            ).len() ==> #[trigger] v@[i].1@[j]@ == spec_chunks(
                streams[i].1,
                native as int / sample_rate as int,
            )[j]),
        Ok(Resampled::Interpolated(s, v)) => exact_interpolation(native, sample_rate) && s
            == sample_rate / native && v@.len() == streams.len() && forall|i: int|
            0 <= i < v@.len() ==> #[trigger] v@[i].0 == streams[i].0 && v@[i].1@ == spec_segments(
                streams[i].1,
            ),
        Err(e) => e == GrapeFileError::UnsupportedRateRatio && sample_rate != native
            && !exact_decimation(native, sample_rate) && !exact_interpolation(native, sample_rate),
    }
}

/// The layout of streams resampled to a requested rate. The numeric
/// kernels run at the boundary: a decimated sample is the mean of its
/// chunk, and a segment `(a, b)` under factor `s` yields the points
/// `a + i*(b-a)/s` for `i` in `0..s`.
#[derive(Debug)]
pub enum Resampled {
    /// The requested rate is the native rate: the streams themselves.
    Same(Vec<(GrapeTag, Vec<Sample>)>),
    /// The requested rate is lower: for each stream, the chunks to
    /// average, one per output sample.
    Decimated(Vec<(GrapeTag, Vec<Vec<Sample>>)>),
    /// The requested rate is higher: the factor, and for each stream the
    /// consecutive pairs, each of which yields factor-many points.
    Interpolated(u64, Vec<(GrapeTag, Vec<(Sample, Sample)>)>),
}

impl GrapeFile {
    /// Extracts one de-interleaved stream.
    fn extract_stream(&self, n: usize, i: usize) -> (out: Vec<Sample>)
        requires
            n >= 1,
            i < n,
        ensures
            out@ == raw_stream(self@.samples, n as int, i as int),
    {
        let len = self.samples.len();
        let c: usize = if i < len {
            (len - i - 1) / n + 1
        } else {
            0
        };
        let mut out: Vec<Sample> = Vec::new();
        let mut j: usize = 0;
        while j < c
            invariant
                n >= 1,
                i < n,
                len == self@.samples.len(),
                c == stream_count(len as int, n as int, i as int),
                0 <= j <= c,
                out@.len() == j,
                forall|jj: int| 0 <= jj < j ==> out@[jj] == self@.samples[jj * (n as int) + i],
            decreases c - j,
        {
            proof {
                let q = (len - i - 1) as int / (n as int);
                vstd::arithmetic::div_mod::lemma_fundamental_div_mod(len - i - 1, n as int);
                vstd::arithmetic::div_mod::lemma_mod_pos_bound(len - i - 1, n as int);
                assert((n as int) * q == q * (n as int)) by (nonlinear_arith);
                assert(q * (n as int) <= len - i - 1);
                assert(j * n <= (c - 1) * n) by (nonlinear_arith)
                    requires
                        0 <= j < c,
                        n >= 1,
                ;
                assert((c - 1) * (n as int) == q * (n as int));
            }
            out.push(self.samples[j * n + i]);
            j = j + 1;
        }
        proof {
            assert(out@ =~= raw_stream(self@.samples, n as int, i as int));
        }
        out
    }

    /// Extracts the streams at their native rate, with the rate itself,
    /// since the streams can be encoded at any rate.
    pub fn streams_native_sample_rate(&self) -> (r: (u64, Vec<(GrapeTag, Vec<Sample>)>))
        requires
            self.wf(),
        ensures
            r.0 == self@.header.sample_rate,
            r.1@.len() == spec_streams(self@).len(),
            forall|i: int| 0 <= i < r.1@.len() ==> #[trigger] r.1@[i].0 == spec_streams(self@)[i].0
                && r.1@[i].1@ == spec_streams(self@)[i].1,
    {
        let n = self.header.tags.len();
        let mut out: Vec<(GrapeTag, Vec<Sample>)> = Vec::new();
        let mut i: usize = 0;
        while i < n
            invariant
                self.wf(),
                n == self@.header.tags.len(),
                0 <= i <= n,
                out@.len() == i,
                forall|ii: int| 0 <= ii < i ==> #[trigger] out@[ii].0 == self@.header.tags[ii]
                    && out@[ii].1@ == raw_stream(self@.samples, n as int, ii),
            decreases n - i,
        {
            if n >= 1 {
                let stream = self.extract_stream(n, i);
                out.push((self.header.tags[i], stream));
            }
            i = i + 1;
        }
        (self.header.sample_rate, out)
    }

    /// Chunks one stream for decimation by `p`.
    fn chunk_stream(stream: &Vec<Sample>, p: usize) -> (out: Vec<Vec<Sample>>)
        requires
            p >= 1,
        ensures
            out@.len() == spec_chunks(stream@, p as int).len(),
            forall|j: int| 0 <= j < out@.len() ==> #[trigger] out@[j]@ == spec_chunks(
                stream@,
                p as int,
            )[j],
    {
        let len = stream.len();
        let c = if len == 0 {
            0
        } else {
            (len - 1) / p + 1
        };
        proof {
            if len > 0 {
                let q = (len - 1) as int / (p as int);
                let r = (len - 1) as int % (p as int);
                vstd::arithmetic::div_mod::lemma_fundamental_div_mod(len - 1, p as int);
                vstd::arithmetic::div_mod::lemma_mod_pos_bound(len - 1, p as int);
                assert((p as int) * q == q * (p as int)) by (nonlinear_arith);
                assert((q + 1) * (p as int) == q * (p as int) + (p as int)) by (nonlinear_arith);
                assert(len + p - 1 == (q + 1) * (p as int) + r);
                vstd::arithmetic::div_mod::lemma_fundamental_div_mod_converse(
                    len + p - 1,
                    p as int,
                    q + 1,
                    r,
                );
                assert((c - 1) * (p as int) == q * (p as int));
                assert((c - 1) * (p as int) < len);
            } else {
                vstd::arithmetic::div_mod::lemma_basic_div(p - 1, p as int);
            }
        }
        let mut out: Vec<Vec<Sample>> = Vec::new();
        let mut j: usize = 0;
        while j < c
            invariant
                p >= 1,
                len == stream@.len(),
                c == spec_chunks(stream@, p as int).len(),
                c >= 1 ==> (c - 1) * p < len,
                0 <= j <= c,
                out@.len() == j,
                forall|jj: int| 0 <= jj < j ==> #[trigger] out@[jj]@ == spec_chunks(
                    stream@,
                    p as int,
                )[jj],
            decreases c - j,
        {
            proof {
                assert(j * p <= (c - 1) * p) by (nonlinear_arith)
                    requires
                        0 <= j < c,
                        p >= 1,
                ;
                assert((j + 1) * (p as int) == j * (p as int) + (p as int)) by (nonlinear_arith);
            }
            let lo = j * p;
            let hi = if len - lo < p {
                len
            } else {
                lo + p
            };
            let chunk = vstd::slice::slice_to_vec(
                vstd::slice::slice_subrange(stream.as_slice(), lo, hi),
            );
            out.push(chunk);
            proof {
                assert(chunk@ == spec_chunks(stream@, p as int)[j as int]);
            }
            j = j + 1;
        }
        out
    }

    /// Pairs each sample of one stream with its successor.
    fn segment_stream(stream: &Vec<Sample>) -> (out: Vec<(Sample, Sample)>)
        ensures
            out@ == spec_segments(stream@),
    {
        let len = stream.len();
        let mut out: Vec<(Sample, Sample)> = Vec::new();
        if len == 0 {
            assert(out@ =~= spec_segments(stream@));
            return out;
        }
        let mut j: usize = 0;
        while j < len - 1
            invariant
                len == stream@.len(),
                len >= 1,
                0 <= j <= len - 1,
                out@.len() == j,
                forall|jj: int| 0 <= jj < j ==> out@[jj] == (stream@[jj], stream@[jj + 1]),
            decreases len - j,
        {
            out.push((stream[j], stream[j + 1]));
            j = j + 1;
        }
        assert(out@ =~= spec_segments(stream@));
        out
    }

    /// Resamples the streams to the requested rate: at the native rate the
    /// streams come back unchanged; at an exact divisor of the native rate
    /// each output sample is the mean of one chunk of `native/requested`
    /// samples; at an exact multiple each consecutive pair yields
    /// `requested/native` interpolated points. Any other ratio is rejected,
    /// since truncated-ratio resampling would silently produce streams of
    /// the wrong length.
    #[verifier::rlimit(60)]
    #[verifier::spinoff_prover]
    #[verifier::loop_isolation(false)]
    pub fn streams_with_sample_rate(&self, sample_rate: u64) -> (r: Result<
        Resampled,
        GrapeFileError,
    >)
        requires
            self.wf(),
            sample_rate >= 1 ==> self@.header.sample_rate / sample_rate <= usize::MAX,
        ensures
            resampled_matches(self@, sample_rate, r),
    {
        let native = self.header.sample_rate;
        if sample_rate == native {
            let (_, streams) = self.streams_native_sample_rate();
            let rr = Resampled::Same(streams);
            proof {
                assert(resampled_matches(self@, sample_rate, Ok::<Resampled, GrapeFileError>(rr)));
            }
            Ok(rr)
        } else if sample_rate < native {
            if sample_rate == 0 || native % sample_rate != 0 {
                return Err(GrapeFileError::UnsupportedRateRatio);
            }
            let p64 = native / sample_rate;
            let p: usize = p64 as usize;
            proof {
                vstd::arithmetic::div_mod::lemma_fundamental_div_mod(
                    native as int,
                    sample_rate as int,
                );
                assert(native as int / sample_rate as int >= 1) by {
                    assert(native >= sample_rate);
                    vstd::arithmetic::div_mod::lemma_div_is_ordered(
                        sample_rate as int,
                        native as int,
                        sample_rate as int,
                    );
                    assert(sample_rate as int / sample_rate as int == 1) by {
                        vstd::arithmetic::div_mod::lemma_div_by_self(sample_rate as int);
                    }
                }
            }
            let (_, streams) = self.streams_native_sample_rate();
            let mut out: Vec<(GrapeTag, Vec<Vec<Sample>>)> = Vec::new();
            let ghost svs = spec_streams(self@);
            let n = streams.len();
            proof {
                assert forall|ii: int| 0 <= ii < n implies #[trigger] streams@[ii].0 == svs[ii].0
                    && streams@[ii].1@ == svs[ii].1 by {
                    assert(streams@[ii].0 == spec_streams(self@)[ii].0);
                }
            }
            let mut i: usize = 0;
            while i < n
                invariant
                    n == streams@.len(),
                    svs.len() == n,
                    p >= 1,
                    p == native as int / sample_rate as int,
                    0 <= i <= n,
                    out@.len() == i,
                    forall|ii: int|
                        0 <= ii < i ==> #[trigger] out@[ii].0 == svs[ii].0 && out@[ii].1@.len()
                            == spec_chunks(svs[ii].1, p as int).len(),
                    forall|ii: int, j: int|
                        0 <= ii < i && 0 <= j < spec_chunks(svs[ii].1, p as int).len()
                            ==> #[trigger] out@[ii].1@[j]@ == spec_chunks(svs[ii].1, p as int)[j],
                decreases n - i,
            {
                let row = &streams[i];
                let chunks = Self::chunk_stream(&row.1, p);
                out.push((row.0, chunks));
                i = i + 1;
            }
            proof {
                assert forall|ii: int|
                    0 <= ii < out@.len() implies #[trigger] out@[ii].0 == spec_streams(self@)[ii].0
                        && out@[ii].1@.len() == spec_chunks(
                        spec_streams(self@)[ii].1,
                        native as int / sample_rate as int,
                    ).len() by {
                    assert(out@[ii].0 == svs[ii].0);
                }
                assert forall|ii: int, j: int|
                    0 <= ii < out@.len() && 0 <= j < spec_chunks(
                        spec_streams(self@)[ii].1,
                        native as int / sample_rate as int,
                    ).len() implies #[trigger] out@[ii].1@[j]@ == spec_chunks(
                    spec_streams(self@)[ii].1,
                    native as int / sample_rate as int,
                )[j] by {
                    assert(out@[ii].1@[j]@ == spec_chunks(svs[ii].1, p as int)[j]);
                }
            }
            let rr = Resampled::Decimated(out);
            proof {
                assert(resampled_matches(self@, sample_rate, Ok::<Resampled, GrapeFileError>(rr)));
            }
            Ok(rr)
        } else {
            if native == 0 || sample_rate % native != 0 {
                return Err(GrapeFileError::UnsupportedRateRatio);
            }
            let s = sample_rate / native;
            let (_, streams) = self.streams_native_sample_rate();
            let mut out: Vec<(GrapeTag, Vec<(Sample, Sample)>)> = Vec::new();
            let ghost svs = spec_streams(self@);
            let n = streams.len();
            proof {
                assert forall|ii: int| 0 <= ii < n implies #[trigger] streams@[ii].0 == svs[ii].0
                    && streams@[ii].1@ == svs[ii].1 by {
                    assert(streams@[ii].0 == spec_streams(self@)[ii].0);
                }
            }
            let mut i: usize = 0;
            while i < n
                invariant
                    n == streams@.len(),
                    svs.len() == n,
                    0 <= i <= n,
                    out@.len() == i,
                    forall|ii: int| 0 <= ii < i ==> #[trigger] out@[ii].0 == svs[ii].0
                        && out@[ii].1@ == spec_segments(svs[ii].1),
                decreases n - i,
            {
                let row = &streams[i];
                let segs = Self::segment_stream(&row.1);
                out.push((row.0, segs));
                i = i + 1;
            }
            proof {
                assert forall|ii: int|
                    0 <= ii < out@.len() implies #[trigger] out@[ii].0 == spec_streams(self@)[ii].0
                        && out@[ii].1@ == spec_segments(spec_streams(self@)[ii].1) by {
                    assert(out@[ii].0 == svs[ii].0);
                }
            }
            let rr = Resampled::Interpolated(s, out);
            proof {
                assert(resampled_matches(self@, sample_rate, Ok::<Resampled, GrapeFileError>(rr)));
            }
            Ok(rr)
        }
    }
}

/// Decimation keeps a constant stream constant: every chunk of a
/// constant-valued stream is non-empty and constant-valued, so each
/// output sample, the mean of one chunk, is that same value.
pub proof fn lemma_decimate_constant(s: Seq<Sample>, p: int, c: Sample)
    requires
        p >= 1,
        forall|i: int| 0 <= i < s.len() ==> #[trigger] s[i] == c,
    ensures
        forall|j: int| 0 <= j < spec_chunks(s, p).len() ==> #[trigger] spec_chunks(s, p)[j].len()
            >= 1,
        forall|j: int, k: int|
            0 <= j < spec_chunks(s, p).len() && 0 <= k < spec_chunks(s, p)[j].len()
                ==> #[trigger] spec_chunks(s, p)[j][k] == c,
{
    let cs = spec_chunks(s, p);
    assert forall|j: int| 0 <= j < cs.len() implies #[trigger] cs[j].len() >= 1 by {
        lemma_chunk_start_in_range(s, p, j);
    }
    assert forall|j: int, k: int|
        0 <= j < cs.len() && 0 <= k < cs[j].len() implies #[trigger] cs[j][k] == c by {
        lemma_chunk_start_in_range(s, p, j);
        assert(cs[j][k] == s[j * p + k]);
    }
}

/// A chunk index within range starts strictly inside the stream, so every
/// chunk is non-empty.
pub proof fn lemma_chunk_start_in_range(s: Seq<Sample>, p: int, j: int)
    requires
        p >= 1,
        0 <= j < spec_chunks(s, p).len(),
    ensures
        0 <= j * p < s.len(),
        (j + 1) * p == j * p + p,
{
    let q = (s.len() + p - 1) / p;
    let r = (s.len() + p - 1) % p;
    vstd::arithmetic::div_mod::lemma_fundamental_div_mod(s.len() + p - 1, p);
    vstd::arithmetic::div_mod::lemma_mod_pos_bound(s.len() + p - 1, p);
    assert(p * q == q * p) by (nonlinear_arith);
    assert(q * p <= s.len() + p - 1);
    assert(j * p <= (q - 1) * p) by (nonlinear_arith)
        requires
            p >= 1,
            j <= q - 1,
    ;
    assert((q - 1) * p == q * p - p) by (nonlinear_arith);
    assert(j * p >= 0) by (nonlinear_arith)
        requires
            j >= 0,
            p >= 1,
    ;
    assert((j + 1) * p == j * p + p) by (nonlinear_arith);
}

/// A builder with no streams builds an empty file: no streams, no
/// samples, and every supported resampling of it is empty.
pub proof fn lemma_empty_build(b: BuilderView)
    requires
        b.streams.len() == 0,
    ensures
        spec_build_truncate(b).header.n_streams == 0,
        spec_build_truncate(b).samples.len() == 0,
        spec_streams(spec_build_truncate(b)).len() == 0,
{
}

} // verus!

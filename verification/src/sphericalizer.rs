//! Resolving the two antenna readings per tag into one spherical reading.
//! A single antenna's azimuth is ambiguous between "in front of" and
//! "behind" the sensor plane; the front antenna's azimuth sign settles it.
//!
//! This stage does the structural work exactly: readiness, ordering,
//! pairing, and classifying each pair's back and front reading. The angle
//! transform itself (scaling the native measurement range to a half circle,
//! reflecting when the tag is behind, rotating onto the device's forward
//! axis and wrapping into `[0, 2*pi)`) is float arithmetic and runs at the
//! boundary, on exactly the values a reading carries.

use vstd::prelude::*;

use crate::hardware_data_manager::{Id, Radian, Update};

verus! {

/// The fixed id of the back (base) antenna.
pub const BACK_ANTENNA: Id = 118875763481542;

/// The fixed id of the front (aux) antenna.
pub const FRONT_ANTENNA: Id = 118875763481510;

/// A tag's configured gain and range, each the bit pattern of an IEEE 754
/// single.
pub type TagSetting = (u32, u32);

/// What a snapshot failed to deliver for some tag: each pair of readings
/// must hold one reading from each fixed antenna, or the configuration is
/// broken.
#[derive(Debug, Clone, Copy, PartialEq, Eq, Structural)]
pub enum SphericalizerError {
    /// A pair carried no reading from the back antenna.
    MissingBackAntenna,
    /// A pair carried no reading from the front antenna.
    MissingFrontAntenna,
}

/// One tag's resolved reading: the back antenna's raw angles, whether the
/// front antenna put the tag behind the sensor plane, and the tag's
/// configured gain and range.
#[derive(Debug, Clone, Copy, PartialEq, Eq, Structural)]
pub struct TagReading {
    /// The back antenna's azimuth, radians.
    pub azm: Radian,
    /// The back antenna's elevation, radians.
    pub elv: Radian,
    /// The front antenna saw a positive azimuth, so the scaled azimuth is
    /// to be reflected across the sensor plane.
    pub flip: bool,
    /// The tag's configured gain.
    pub gain: u32,
    /// The tag's configured range.
    pub range: u32,
}

/// The bit patterns of the strictly positive IEEE 754 doubles: sign bit
/// clear, not a zero, not a NaN. This is exactly when the double compares
/// greater than zero.
pub open spec fn f64_bits_positive(b: u64) -> bool {
    0 < b <= 0x7FF0000000000000
}

/// Stable insertion of one update into a sequence sorted by destination:
/// it goes after every reading whose destination is not larger.
pub open spec fn insert_by_dst(u: Update, s: Seq<Update>) -> Seq<Update>
    decreases s.len(),
{
    if s.len() == 0 {
        seq![u]
    } else if u.dst < s[0].dst {
        seq![u] + s
    } else {
        seq![s[0]] + insert_by_dst(u, s.drop_first())
    }
}

/// Stable sort by destination id, as insertion sort.
pub open spec fn sort_by_dst(s: Seq<Update>) -> Seq<Update>
    decreases s.len(),
{
    if s.len() == 0 {
        Seq::empty()
    } else {
        insert_by_dst(s.last(), sort_by_dst(s.drop_last()))
    }
}

/// The first of the two readings that came from the back antenna, if any.
pub open spec fn pair_back(a: Update, b: Update) -> Option<Update> {
    if a.src == BACK_ANTENNA {
        Some(a)
    } else if b.src == BACK_ANTENNA {
        Some(b)
    } else {
        None
    }
}

/// The first of the two readings that came from the front antenna, if any.
pub open spec fn pair_front(a: Update, b: Update) -> Option<Update> {
    if a.src == FRONT_ANTENNA {
        Some(a)
    } else if b.src == FRONT_ANTENNA {
        Some(b)
    } else {
        None
    }
}

/// The reading of tag `i`, out of its sorted pair and its setting.
pub open spec fn tag_reading(back: Update, front: Update, setting: TagSetting) -> TagReading {
    TagReading {
        azm: back.azm,
        elv: back.elv,
        flip: f64_bits_positive(front.azm),
        gain: setting.0,
        range: setting.1,
    }
}

/// The readings of the tags from `i` on, each from its consecutive sorted
/// pair, or the first configuration error met.
pub open spec fn spec_readings(
    settings: Seq<TagSetting>,
    sorted: Seq<Update>,
    i: int,
) -> Result<Seq<TagReading>, SphericalizerError>
    decreases settings.len() - i,
{
    if i < 0 || i >= settings.len() {
        Ok(Seq::empty())
    } else {
        match pair_back(sorted[2 * i], sorted[2 * i + 1]) {
            None => Err(SphericalizerError::MissingBackAntenna),
            Some(back) => match pair_front(sorted[2 * i], sorted[2 * i + 1]) {
                None => Err(SphericalizerError::MissingFrontAntenna),
                Some(front) => match spec_readings(settings, sorted, i + 1) {
                    Err(e) => Err(e),
                    Ok(rest) => Ok(seq![tag_reading(back, front, settings[i])] + rest),
                },
            },
        }
    }
}

/// What `query` returns: not ready unless the snapshot holds exactly two
/// readings per configured tag; else the snapshot is sorted by tag id,
/// grouped into consecutive pairs, and each pair resolved.
pub open spec fn spec_query(
    settings: Seq<TagSetting>,
    updates: Seq<Update>,
) -> Result<Option<Seq<TagReading>>, SphericalizerError> {
    if updates.len() != settings.len() * 2 {
        Ok(None)
    } else {
        match spec_readings(settings, sort_by_dst(updates), 0) {
            Err(e) => Err(e),
            Ok(rs) => Ok(Some(rs)),
        }
    }
}

/// `s` is ordered by destination id.
pub open spec fn sorted_by_dst(s: Seq<Update>) -> bool {
    forall|i: int, j: int| 0 <= i < j < s.len() ==> #[trigger] s[i].dst <= #[trigger] s[j].dst
}

/// Inserting into a sorted sequence at the first position whose
/// destination is larger is what `insert_by_dst` does.
pub proof fn lemma_insert_by_dst_at(u: Update, s: Seq<Update>, pos: int)
    requires
        sorted_by_dst(s),
        0 <= pos <= s.len(),
        forall|k: int| 0 <= k < pos ==> #[trigger] s[k].dst <= u.dst,
        pos == s.len() || u.dst < s[pos].dst,
    ensures
        insert_by_dst(u, s) == s.subrange(0, pos) + seq![u] + s.subrange(pos, s.len() as int),
        insert_by_dst(u, s).len() == s.len() + 1,
        sorted_by_dst(insert_by_dst(u, s)),
    decreases s.len(),
{
    if s.len() == 0 {
        assert(insert_by_dst(u, s) =~= s.subrange(0, pos) + seq![u] + s.subrange(
            pos,
            s.len() as int,
        ));
    } else if u.dst < s[0].dst {
        assert(pos == 0) by {
            if pos > 0 {
                assert(s[0].dst <= u.dst);
            }
        }
        assert(insert_by_dst(u, s) =~= s.subrange(0, pos) + seq![u] + s.subrange(
            pos,
            s.len() as int,
        ));
        assert(sorted_by_dst(seq![u] + s));
    } else {
        let rest = s.drop_first();
        assert(pos >= 1) by {
            assert(!(u.dst < s[0].dst));
        }
        assert(sorted_by_dst(rest)) by {
            assert forall|i: int, j: int|
                0 <= i < j < rest.len() implies #[trigger] rest[i].dst
                <= #[trigger] rest[j].dst by {
                assert(rest[i] == s[i + 1] && rest[j] == s[j + 1]);
            }
        }
        assert forall|k: int| 0 <= k < pos - 1 implies #[trigger] rest[k].dst <= u.dst by {
            assert(rest[k] == s[k + 1]);
        }
        assert(pos - 1 == rest.len() || u.dst < rest[pos - 1].dst) by {
            if pos - 1 < rest.len() {
                assert(rest[pos - 1] == s[pos]);
            }
        }
        lemma_insert_by_dst_at(u, rest, pos - 1);
        let inner = insert_by_dst(u, rest);
        assert(insert_by_dst(u, s) == seq![s[0]] + inner);
        assert(seq![s[0]] + (rest.subrange(0, pos - 1) + seq![u] + rest.subrange(
            pos - 1,
            rest.len() as int,
        )) =~= s.subrange(0, pos) + seq![u] + s.subrange(pos, s.len() as int));
        assert(sorted_by_dst(seq![s[0]] + inner)) by {
            let whole = seq![s[0]] + inner;
            assert forall|i: int, j: int|
                0 <= i < j < whole.len() implies #[trigger] whole[i].dst
                <= #[trigger] whole[j].dst by {
                if i > 0 {
                    assert(whole[i] == inner[i - 1] && whole[j] == inner[j - 1]);
                } else {
                    assert(whole[j] == inner[j - 1]);
                    let sp = rest.subrange(0, pos - 1) + seq![u] + rest.subrange(
                        pos - 1,
                        rest.len() as int,
                    );
                    assert(inner == sp);
                    if j - 1 < pos - 1 {
                        assert(inner[j - 1] == s[j]);
                    } else if j - 1 == pos - 1 {
                        assert(inner[j - 1] == u);
                        assert(s[0].dst <= u.dst);
                    } else {
                        assert(inner[j - 1] == rest[j - 2]);
                        assert(rest[j - 2] == s[j - 1]);
                    }
                }
            }
        }
    }
}

/// The settings of the tags this sphericalizer looks for, in tag order.
pub struct Sphericalizer {
    tag_settings: Vec<TagSetting>,
}

impl Sphericalizer {
    /// The configured settings.
    pub closed spec fn settings(&self) -> Seq<TagSetting> {
        self.tag_settings@
    }

    /// Stores the gains and ranges of the tags to look for.
    pub fn new(tag_settings: Vec<TagSetting>) -> (r: Self)
        ensures
            r.settings() == tag_settings@,
    {
        Self { tag_settings }
    }

    /// Sorts a snapshot by destination id, stably.
    fn sort_updates(updates: Vec<Update>) -> (r: Vec<Update>)
        ensures
            r@ == sort_by_dst(updates@),
            sorted_by_dst(r@),
            r@.len() == updates@.len(),
    {
        let mut out: Vec<Update> = Vec::new();
        let n = updates.len();
        let mut i: usize = 0;
        assert(out@ =~= sort_by_dst(updates@.subrange(0, 0)));
        while i < n
            invariant
                n == updates@.len(),
                0 <= i <= n,
                out@ == sort_by_dst(updates@.subrange(0, i as int)),
                sorted_by_dst(out@),
                out@.len() == i,
            decreases n - i,
        {
            let u = updates[i];
            let m = out.len();
            let mut pos: usize = 0;
            while pos < m && !(u.dst < out[pos].dst)
                invariant
                    m == out@.len(),
                    0 <= pos <= m,
                    sorted_by_dst(out@),
                    forall|k: int| 0 <= k < pos ==> #[trigger] out@[k].dst <= u.dst,
                decreases m - pos,
            {
                pos = pos + 1;
            }
            proof {
                lemma_insert_by_dst_at(u, out@, pos as int);
            }
            let ghost out0 = out@;
            out.insert(pos, u);
            proof {
                let pre = updates@.subrange(0, i as int);
                let cur = updates@.subrange(0, i + 1);
                assert(cur.drop_last() =~= pre);
                assert(cur.last() == u);
                assert(out@ =~= out0.subrange(0, pos as int) + seq![u] + out0.subrange(
                    pos as int,
                    out0.len() as int,
                ));
                assert(out@ == insert_by_dst(u, out0));
            }
            i = i + 1;
        }
        assert(updates@.subrange(0, n as int) =~= updates@);
        out
    }

    /// Resolves a snapshot: readiness first, then sort, pair, and
    /// classify. A snapshot of the wrong size is simply not ready; a pair
    /// without one reading from each fixed antenna is a configuration
    /// error.
    pub fn query(&self, updates: Vec<Update>) -> (r: Result<
        Option<Vec<TagReading>>,
        SphericalizerError,
    >)
        ensures
            match r {
                Ok(opt) => match opt {
                    Some(rs) => spec_query(self.settings(), updates@) == Ok::<
                        Option<Seq<TagReading>>,
                        SphericalizerError,
                    >(Some(rs@)),
                    None => spec_query(self.settings(), updates@) == Ok::<
                        Option<Seq<TagReading>>,
                        SphericalizerError,
                    >(None) && updates@.len() != self.settings().len() * 2,
                },
                Err(e) => spec_query(self.settings(), updates@) == Err::<
                    Option<Seq<TagReading>>,
                    SphericalizerError,
                >(e),
            },
            updates@.len() != self.settings().len() * 2 <==> r == Ok::<
                Option<Vec<TagReading>>,
                SphericalizerError,
            >(None),
    {
        let n_tags = self.tag_settings.len();
        if updates.len() % 2 != 0 || updates.len() / 2 != n_tags {
            proof {
                assert(updates@.len() != self.settings().len() * 2);
            }
            return Ok(None);
        }
        assert(updates@.len() == self.settings().len() * 2);
        let sorted = Self::sort_updates(updates);
        let ghost sorted_view = sorted@;
        let sn = sorted.len();
        let mut out: Vec<TagReading> = Vec::new();
        let mut i: usize = 0;
        proof {
            match spec_readings(self.settings(), sorted_view, 0) {
                Ok(rs) => {
                    assert(Seq::<TagReading>::empty() + rs =~= rs);
                },
                Err(_) => {},
            }
        }
        while i < n_tags
            invariant
                n_tags == self.settings().len(),
                sorted_view == sorted@,
                sorted_view == sort_by_dst(updates@),
                updates@.len() == self.settings().len() * 2,
                sorted@.len() == (n_tags as int) * 2,
                sn == sorted@.len(),
                0 <= i <= n_tags,
                out@.len() == i,
                ({
                    let whole = spec_readings(self.settings(), sorted_view, 0);
                    let rest = spec_readings(self.settings(), sorted_view, i as int);
                    match rest {
                        Ok(rs) => whole == Ok::<Seq<TagReading>, SphericalizerError>(out@ + rs),
                        Err(e) => whole == Err::<Seq<TagReading>, SphericalizerError>(e),
                    }
                }),
            decreases n_tags - i,
        {
            proof {
                assert(2 * i + 1 < sorted@.len()) by (nonlinear_arith)
                    requires
                        0 <= i < n_tags,
                        sorted@.len() == n_tags * 2,
                ;
            }
            let a = sorted[2 * i];
            let b = sorted[2 * i + 1];
            let back = if a.src == BACK_ANTENNA {
                a
            } else if b.src == BACK_ANTENNA {
                b
            } else {
                proof {
                    let rest = spec_readings(self.settings(), sorted_view, i as int);
                    assert(rest == Err::<Seq<TagReading>, SphericalizerError>(
                        SphericalizerError::MissingBackAntenna,
                    ));
                }
                return Err(SphericalizerError::MissingBackAntenna);
            };
            let front = if a.src == FRONT_ANTENNA {
                a
            } else if b.src == FRONT_ANTENNA {
                b
            } else {
                proof {
                    let rest = spec_readings(self.settings(), sorted_view, i as int);
                    assert(rest == Err::<Seq<TagReading>, SphericalizerError>(
                        SphericalizerError::MissingFrontAntenna,
                    ));
                }
                return Err(SphericalizerError::MissingFrontAntenna);
            };
            let setting = self.tag_settings[i];
            let flip = 0 < front.azm && front.azm <= 0x7FF0000000000000;
            let reading = TagReading {
                azm: back.azm,
                elv: back.elv,
                flip,
                gain: setting.0,
                range: setting.1,
            };
            proof {
                assert(reading == tag_reading(back, front, self.settings()[i as int]));
                let rest = spec_readings(self.settings(), sorted_view, i as int);
                let tail = spec_readings(self.settings(), sorted_view, i + 1);
                match tail {
                    Ok(rs) => {
                        assert(rest == Ok::<Seq<TagReading>, SphericalizerError>(
                            seq![reading] + rs,
                        ));
                        assert(out@.push(reading) + rs =~= out@ + (seq![reading] + rs));
                    },
                    Err(_) => {},
                }
            }
            out.push(reading);
            i = i + 1;
        }
        proof {
            let rest = spec_readings(self.settings(), sorted_view, n_tags as int);
            assert(rest == Ok::<Seq<TagReading>, SphericalizerError>(Seq::empty()));
            assert(out@ + Seq::<TagReading>::empty() =~= out@);
        }
        Ok(Some(out))
    }
}

} // verus!

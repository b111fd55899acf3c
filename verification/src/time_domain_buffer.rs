//! The session-scoped append log of per-tick spatial metadata rows.

use vstd::prelude::*;

use crate::saf::BufferMetadata;

verus! {

/// A buffer of time-domain spatial data: one row per tick, one entry per
/// tag in every row.
#[derive(Debug, Clone)]
pub struct TDBufMeta {
    data: Vec<Vec<BufferMetadata>>,
    num_tags: usize,
}

impl TDBufMeta {
    /// The rows collected so far.
    pub closed spec fn rows(&self) -> Seq<Seq<BufferMetadata>> {
        self.data@.map_values(|row: Vec<BufferMetadata>| row@)
    }

    /// How many entries each row must have.
    pub closed spec fn width(&self) -> usize {
        self.num_tags
    }

    /// Every stored row has one entry per tag.
    pub open spec fn wf(&self) -> bool {
        forall|i: int| 0 <= i < self.rows().len() ==> #[trigger] self.rows()[i].len()
            == self.width()
    }

    /// An empty buffer that will demand `num_tags` entries per row.
    pub fn new(num_tags: usize) -> (r: Self)
        ensures
            r.rows().len() == 0,
            r.width() == num_tags,
            r.wf(),
    {
        Self { data: Vec::new(), num_tags }
    }

    /// How many entries each row must have.
    pub fn num_tags(&self) -> (n: usize)
        ensures
            n == self.width(),
    {
        self.num_tags
    }

    /// Appends one tick's metadata. A row of the wrong width is a
    /// programmer error, which the caller rules out up front.
    pub fn add(&mut self, data: Vec<BufferMetadata>)
        requires
            data@.len() == old(self).width(),
            old(self).wf(),
        ensures
            final(self).rows() == old(self).rows().push(data@),
            final(self).width() == old(self).width(),
            final(self).wf(),
    {
        self.data.push(data);
        proof {
            assert(self.rows() =~= old(self).rows().push(data@));
        }
    }

    /// Hands back everything collected, consuming the buffer.
    pub fn dump(self) -> (r: Vec<Vec<BufferMetadata>>)
        ensures
            r@.map_values(|row: Vec<BufferMetadata>| row@) == self.rows(),
    {
        self.data
    }
}

/// The azimuth and elevation streams of one tag across dumped rows, in
/// row order: the regrouping that turns a session's rows into the two
/// per-tag streams a file is built from.
pub fn tag_streams(rows: &Vec<Vec<BufferMetadata>>, tag_idx: usize) -> (r: (Vec<u32>, Vec<u32>))
    requires
        forall|i: int| 0 <= i < rows@.len() ==> tag_idx < #[trigger] rows@[i]@.len(),
    ensures
        r.0@.len() == rows@.len(),
        r.1@.len() == rows@.len(),
        forall|i: int| 0 <= i < rows@.len() ==> #[trigger] r.0@[i] == rows@[i]@[
            tag_idx as int
        ].azimuth,
        forall|i: int| 0 <= i < rows@.len() ==> #[trigger] r.1@[i] == rows@[i]@[
            tag_idx as int
        ].elevation,
{
    let n = rows.len();
    let mut azms: Vec<u32> = Vec::new();
    let mut elvs: Vec<u32> = Vec::new();
    let mut i: usize = 0;
    while i < n
        invariant
            n == rows@.len(),
            forall|k: int| 0 <= k < n ==> tag_idx < #[trigger] rows@[k]@.len(),
            0 <= i <= n,
            azms@.len() == i,
            elvs@.len() == i,
            forall|k: int| 0 <= k < i ==> #[trigger] azms@[k] == rows@[k]@[tag_idx as int].azimuth,
            forall|k: int| 0 <= k < i ==> #[trigger] elvs@[k] == rows@[k]@[
                tag_idx as int
            ].elevation,
        decreases n - i,
    {
        let row = &rows[i];
        azms.push(row[tag_idx].azimuth);
        elvs.push(row[tag_idx].elevation);
        i = i + 1;
    }
    (azms, elvs)
}

} // verus!

//! The per-key windowing stage: drains the raw, possibly bursty stream of
//! updates, keeps a bounded history per (source, destination) pair, and
//! hands out one snapshot per pair on demand. Averaging the snapshot's
//! angle lists is float work and happens at the boundary; the snapshot
//! carries exactly the values the mean runs over, most recent first.

use vstd::prelude::*;

use crate::hardware_data_manager::{HardwareDataManager, Id, Radian, Update};
use vstd::slice::{slice_subrange, slice_to_vec};

verus! {

/// How many updates each (source, destination) window retains.
pub const BUFFER_SIZE: usize = 5;

/// The bounded history of one (source, destination) pair, oldest first.
#[derive(Debug, Clone)]
pub struct Window {
    /// The pair's source id.
    pub src: Id,
    /// The pair's destination id.
    pub dst: Id,
    /// The retained updates, oldest first.
    pub entries: Vec<Update>,
}

/// Mathematical value of a window.
pub struct WindowView {
    /// The pair's source id.
    pub src: Id,
    /// The pair's destination id.
    pub dst: Id,
    /// The retained updates, oldest first.
    pub entries: Seq<Update>,
}

impl View for Window {
    type V = WindowView;

    open spec fn view(&self) -> WindowView {
        WindowView { src: self.src, dst: self.dst, entries: self.entries@ }
    }
}

/// One pair's snapshot: the retained angles, most recent first. The mean
/// of `azms` and of `elvs` is the pair's averaged reading.
#[derive(Debug, Clone, PartialEq, Eq)]
pub struct WindowSnapshot {
    /// The pair's source id.
    pub src: Id,
    /// The pair's destination id.
    pub dst: Id,
    /// The retained azimuths, most recent first.
    pub azms: Vec<Radian>,
    /// The retained elevations, most recent first.
    pub elvs: Vec<Radian>,
}

/// Mathematical value of a snapshot.
pub struct SnapshotView {
    /// The pair's source id.
    pub src: Id,
    /// The pair's destination id.
    pub dst: Id,
    /// The retained azimuths, most recent first.
    pub azms: Seq<Radian>,
    /// The retained elevations, most recent first.
    pub elvs: Seq<Radian>,
}

impl View for WindowSnapshot {
    type V = SnapshotView;

    open spec fn view(&self) -> SnapshotView {
        SnapshotView { src: self.src, dst: self.dst, azms: self.azms@, elvs: self.elvs@ }
    }
}

/// Index of the first window for the pair at or after `i`, or -1.
pub open spec fn find_from(ws: Seq<WindowView>, src: Id, dst: Id, i: int) -> int
    decreases ws.len() - i,
{
    if i < 0 || i >= ws.len() {
        -1
    } else if ws[i].src == src && ws[i].dst == dst {
        i
    } else {
        find_from(ws, src, dst, i + 1)
    }
}

/// Index of the first window for the pair, or -1.
pub open spec fn find_window(ws: Seq<WindowView>, src: Id, dst: Id) -> int {
    find_from(ws, src, dst, 0)
}

/// Appending one update: it joins its pair's window, or opens a new window
/// at the end.
pub open spec fn feed_one(ws: Seq<WindowView>, u: Update) -> Seq<WindowView> {
    let i = find_window(ws, u.src, u.dst);
    if i >= 0 {
        ws.update(
            i,
            WindowView { src: ws[i].src, dst: ws[i].dst, entries: ws[i].entries.push(u) },
        )
    } else {
        ws.push(WindowView { src: u.src, dst: u.dst, entries: seq![u] })
    }
}

/// Appending a whole sequence of drained updates, in order.
pub open spec fn feed(ws: Seq<WindowView>, us: Seq<Update>) -> Seq<WindowView>
    decreases us.len(),
{
    if us.len() == 0 {
        ws
    } else {
        feed(feed_one(ws, us[0]), us.drop_first())
    }
}

/// A window cut down to its most recent `BUFFER_SIZE` entries.
pub open spec fn trim_window(w: WindowView) -> WindowView {
    if w.entries.len() > BUFFER_SIZE {
        WindowView {
            src: w.src,
            dst: w.dst,
            entries: w.entries.subrange(
                w.entries.len() - BUFFER_SIZE,
                w.entries.len() as int,
            ),
        }
    } else {
        w
    }
}

/// All windows trimmed.
pub open spec fn trim_all(ws: Seq<WindowView>) -> Seq<WindowView> {
    ws.map_values(|w: WindowView| trim_window(w))
}

/// The snapshot of one window: its angles, most recent first.
pub open spec fn snap(w: WindowView) -> SnapshotView {
    SnapshotView {
        src: w.src,
        dst: w.dst,
        azms: Seq::new(w.entries.len(), |j: int| w.entries[w.entries.len() - 1 - j].azm),
        elvs: Seq::new(w.entries.len(), |j: int| w.entries[w.entries.len() - 1 - j].elv),
    }
}

/// Drains updates from a queue into per-pair windows and reports windowed
/// snapshots on demand. It owns the queue; the ingestion side hands the
/// queue over or feeds it through the embedding program.
pub struct UpdateAccumulator<Hdm: HardwareDataManager> {
    hdm: Hdm,
    windows: Vec<Window>,
}

impl<Hdm: HardwareDataManager> UpdateAccumulator<Hdm> {
    /// The updates still queued.
    pub closed spec fn queued(&self) -> Seq<Update> {
        self.hdm.pending()
    }

    /// The current windows, in order of first sighting.
    pub closed spec fn wins(&self) -> Seq<WindowView> {
        self.windows@.map_values(|w: Window| w@)
    }

    /// A fresh accumulator over the given queue, with no windows.
    pub fn new(hdm: Hdm) -> (r: Self)
        ensures
            r.queued() == hdm.pending(),
            r.wins().len() == 0,
    {
        let r = Self { hdm, windows: Vec::new() };
        proof {
            assert(r.wins() =~= Seq::<WindowView>::empty());
        }
        r
    }

    /// Routes one update into its window.
    fn feed_one_exec(&mut self, u: Update)
        ensures
            final(self).wins() == feed_one(old(self).wins(), u),
            final(self).queued() == old(self).queued(),
    {
        let ghost ws0 = self.wins();
        let n = self.windows.len();
        let mut idx: usize = 0;
        while idx < n
            invariant
                n == self.windows@.len(),
                ws0 == self.wins(),
                0 <= idx <= n,
                find_window(ws0, u.src, u.dst) == find_from(ws0, u.src, u.dst, idx as int),
                self == old(self),
            decreases n - idx,
        {
            if self.windows[idx].src == u.src && self.windows[idx].dst == u.dst {
                let mut w = self.windows.remove(idx);
                w.entries.push(u);
                self.windows.insert(idx, w);
                proof {
                    assert(self.windows@ =~= old(self).windows@.update(idx as int, w));
                    assert(self.wins() =~= feed_one(ws0, u));
                }
                return;
            }
            idx = idx + 1;
        }
        let mut entries: Vec<Update> = Vec::new();
        entries.push(u);
        let w = Window { src: u.src, dst: u.dst, entries };
        self.windows.push(w);
        proof {
            assert(find_window(ws0, u.src, u.dst) == -1);
            assert(w@.entries =~= seq![u]);
            assert(w@ == WindowView { src: u.src, dst: u.dst, entries: seq![u] });
            assert(self.wins() =~= feed_one(ws0, u));
        }
    }

    /// Drains the queue, trims every window to its most recent
    /// `BUFFER_SIZE` entries, and reports one snapshot per pair, its angle
    /// lists most recent first. The mean over a snapshot's lists is the
    /// pair's averaged reading; the caller computes it at the boundary.
    pub fn get_status(&mut self) -> (r: Vec<WindowSnapshot>)
        ensures
            final(self).queued().len() == 0,
            final(self).wins() == trim_all(feed(old(self).wins(), old(self).queued())),
            r@.len() == final(self).wins().len(),
            forall|i: int| 0 <= i < r@.len() ==> #[trigger] r@[i]@ == snap(final(self).wins()[i]),
    {
        let ghost ws0 = self.wins();
        let ghost us0 = self.queued();
        loop
            invariant
                feed(ws0, us0) == feed(self.wins(), self.queued()),
            ensures
                self.queued().len() == 0,
                feed(ws0, us0) == self.wins(),
            decreases self.queued().len(),
        {
            let next = self.hdm.next_update();
            match next {
                None => {
                    break ;
                },
                Some(u) => {
                    proof {
                        assert(feed(self.wins(), seq![u] + self.queued()) == feed(
                            feed_one(self.wins(), u),
                            self.queued(),
                        )) by {
                            let us = seq![u] + self.queued();
                            assert(us[0] == u);
                            assert(us.drop_first() =~= self.queued());
                        }
                    }
                    self.feed_one_exec(u);
                },
            }
        }
        // trim every window
        let ghost fed = self.wins();
        let n = self.windows.len();
        let mut idx: usize = 0;
        while idx < n
            invariant
                n == self.windows@.len(),
                self.wins().len() == n,
                fed.len() == n,
                0 <= idx <= n,
                forall|j: int| 0 <= j < idx ==> #[trigger] self.wins()[j] == trim_window(fed[j]),
                forall|j: int| idx <= j < n ==> #[trigger] self.wins()[j] == fed[j],
                self.queued().len() == 0,
            decreases n - idx,
        {
            let ghost before = self.windows@;
            let ghost wins_start = self.wins();
            if self.windows[idx].entries.len() > BUFFER_SIZE {
                let mut w = self.windows.remove(idx);
                let len = w.entries.len();
                let kept = slice_to_vec(
                    slice_subrange(w.entries.as_slice(), len - BUFFER_SIZE, len),
                );
                w.entries = kept;
                self.windows.insert(idx, w);
                proof {
                    assert(self.windows@ =~= before.update(idx as int, w));
                    assert(self.windows@[idx as int] == w);
                    assert(self.wins()[idx as int] == w@);
                    assert(wins_start[idx as int] == fed[idx as int]);
                    assert(fed[idx as int] == before[idx as int]@);
                    assert(w@.entries =~= fed[idx as int].entries.subrange(
                        fed[idx as int].entries.len() - BUFFER_SIZE,
                        fed[idx as int].entries.len() as int,
                    ));
                    assert(self.wins()[idx as int] == trim_window(fed[idx as int]));
                    assert forall|j: int| 0 <= j < n && j != idx implies self.wins()[j]
                        == wins_start[j] by {
                        assert(self.windows@[j] == before[j]);
                    }
                }
            } else {
                proof {
                    assert(wins_start[idx as int] == fed[idx as int]);
                    assert(self.wins()[idx as int] == trim_window(fed[idx as int]));
                }
            }
            proof {
                assert forall|j: int| 0 <= j < idx + 1 implies #[trigger] self.wins()[j]
                    == trim_window(fed[j]) by {
                    if j < idx {
                        assert(self.wins()[j] == wins_start[j]);
                        assert(wins_start[j] == trim_window(fed[j]));
                    }
                }
                assert forall|j: int| idx + 1 <= j < n implies #[trigger] self.wins()[j]
                    == fed[j] by {
                    assert(self.wins()[j] == wins_start[j]);
                    assert(wins_start[j] == fed[j]);
                }
            }
            idx = idx + 1;
        }
        proof {
            assert(self.wins() =~= trim_all(fed));
        }
        // snapshot every window
        let mut out: Vec<WindowSnapshot> = Vec::new();
        let mut idx: usize = 0;
        while idx < n
            invariant
                n == self.windows@.len(),
                0 <= idx <= n,
                out@.len() == idx,
                forall|j: int| 0 <= j < idx ==> #[trigger] out@[j]@ == snap(self.wins()[j]),
            decreases n - idx,
        {
            let w = &self.windows[idx];
            let len = w.entries.len();
            let mut azms: Vec<Radian> = Vec::new();
            let mut elvs: Vec<Radian> = Vec::new();
            let mut j: usize = 0;
            while j < len
                invariant
                    len == w.entries@.len(),
                    0 <= j <= len,
                    azms@.len() == j,
                    elvs@.len() == j,
                    forall|jj: int| 0 <= jj < j ==> azms@[jj] == w.entries@[len - 1 - jj].azm,
                    forall|jj: int| 0 <= jj < j ==> elvs@[jj] == w.entries@[len - 1 - jj].elv,
                decreases len - j,
            {
                azms.push(w.entries[len - 1 - j].azm);
                elvs.push(w.entries[len - 1 - j].elv);
                j = j + 1;
            }
            let snapshot = WindowSnapshot { src: w.src, dst: w.dst, azms, elvs };
            proof {
                assert(snapshot@.azms =~= snap(self.wins()[idx as int]).azms);
                assert(snapshot@.elvs =~= snap(self.wins()[idx as int]).elvs);
            }
            out.push(snapshot);
            idx = idx + 1;
        }
        out
    }
}

impl UpdateAccumulator<crate::hdm::Hdm> {
    /// Feeds one decoded update into the owned buffer, behind everything
    /// already queued, so draining preserves arrival order.
    pub fn add_update(&mut self, update: Update)
        ensures
            final(self).queued() == old(self).queued().push(update),
            final(self).wins() == old(self).wins(),
    {
        self.hdm.add_update(update);
    }
}

/// Feeding same-pair updates into that pair's sole window appends them all.
pub proof fn lemma_feed_same_key(w: WindowView, us: Seq<Update>)
    requires
        forall|i: int| 0 <= i < us.len() ==> #[trigger] us[i].src == w.src && us[i].dst == w.dst,
    ensures
        feed(seq![w], us) == seq![
            WindowView { src: w.src, dst: w.dst, entries: w.entries + us },
        ],
    decreases us.len(),
{
    if us.len() == 0 {
        assert(w.entries + us =~= w.entries);
        assert(WindowView { src: w.src, dst: w.dst, entries: w.entries + us } == w);
    } else {
        let u = us[0];
        let ws = seq![w];
        assert(find_window(ws, u.src, u.dst) == 0);
        let w2 = WindowView { src: w.src, dst: w.dst, entries: w.entries.push(u) };
        assert(feed_one(ws, u) =~= seq![w2]);
        lemma_feed_same_key(w2, us.drop_first());
        assert(w2.entries + us.drop_first() =~= w.entries + us);
    }
}

/// Accumulator windowing: feeding more than `BUFFER_SIZE` updates for one
/// pair retains exactly the most recent `BUFFER_SIZE` of them (and fewer
/// are all retained). The snapshot's angle lists, and so the mean the
/// caller takes over them, range over exactly the retained updates.
pub proof fn lemma_window_retention(us: Seq<Update>)
    requires
        us.len() >= 1,
        forall|i: int| 0 <= i < us.len() ==> #[trigger] us[i].src == us[0].src && us[i].dst
            == us[0].dst,
    ensures
        trim_all(feed(Seq::empty(), us)).len() == 1,
        trim_all(feed(Seq::empty(), us))[0].src == us[0].src,
        trim_all(feed(Seq::empty(), us))[0].dst == us[0].dst,
        trim_all(feed(Seq::empty(), us))[0].entries == if us.len() > BUFFER_SIZE {
            us.subrange(us.len() - BUFFER_SIZE, us.len() as int)
        } else {
            us
        },
{
    let u = us[0];
    let empty = Seq::<WindowView>::empty();
    assert(find_window(empty, u.src, u.dst) == -1);
    let w1 = WindowView { src: u.src, dst: u.dst, entries: seq![u] };
    assert(feed_one(empty, u) =~= seq![w1]);
    assert(feed(empty, us) == feed(feed_one(empty, u), us.drop_first()));
    assert forall|i: int| 0 <= i < us.drop_first().len() implies #[trigger] us.drop_first()[i].src
        == w1.src && us.drop_first()[i].dst == w1.dst by {
        assert(us.drop_first()[i] == us[i + 1]);
    }
    lemma_feed_same_key(w1, us.drop_first());
    let whole = WindowView { src: u.src, dst: u.dst, entries: w1.entries + us.drop_first() };
    assert(whole.entries =~= us);
    assert(feed(empty, us) =~= seq![WindowView { src: u.src, dst: u.dst, entries: us }]);
    if us.len() > BUFFER_SIZE {
        assert(trim_all(feed(empty, us))[0].entries == us.subrange(
            us.len() - BUFFER_SIZE,
            us.len() as int,
        ));
    }
}

} // verus!

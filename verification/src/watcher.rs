//! The manifest watcher: an additive differ over successive versions of a
//! live playlist.
//!
//! The watcher emits one `Key` event for every `EXT-X-KEY` occurrence of
//! every update (key rotations must never be coalesced), and one
//! `Segment` event per URI position the first time that position is
//! covered; positions already emitted are never re-emitted.

use vstd::prelude::*;
use vstd::string::*;
use crate::manifest::{KeyAttributesModel, Line, LineModel, Tag};

verus! {

/// A download request emitted by the watcher.
#[derive(Debug, Clone, PartialEq, Eq)]
pub enum FileAdd {
    Segment(String),
    Key(String),
}

pub enum FileAddModel {
    Segment(Seq<char>),
    Key(Seq<char>),
}

impl View for FileAdd {
    type V = FileAddModel;

    open spec fn view(&self) -> FileAddModel {
        match self {
            FileAdd::Segment(s) => FileAddModel::Segment(s@),
            FileAdd::Key(s) => FileAddModel::Key(s@),
        }
    }
}

/// The URI a key event carries: the `URI` attribute, or empty when the
/// tag has none.
pub open spec fn key_uri(k: KeyAttributesModel) -> Seq<char> {
    match k.uri {
        Some(u) => u,
        None => Seq::empty(),
    }
}

/// How many URI lines a manifest holds.
pub open spec fn uri_count(lines: Seq<LineModel>) -> nat
    decreases lines.len(),
{
    if lines.len() == 0 {
        0
    } else {
        (match lines[0] {
            LineModel::Uri(u) => 1 as nat,
            _ => 0 as nat,
        }) + uri_count(lines.skip(1))
    }
}

/// The URI lines of a manifest, in order.
pub open spec fn uris_of(lines: Seq<LineModel>) -> Seq<Seq<char>>
    decreases lines.len(),
{
    if lines.len() == 0 {
        Seq::empty()
    } else {
        match lines[0] {
            LineModel::Uri(u) => seq![u] + uris_of(lines.skip(1)),
            _ => uris_of(lines.skip(1)),
        }
    }
}

/// The events one update emits, given how many URI positions were already
/// covered: every key tag emits, and each URI after the first `skip`
/// positions emits a segment.
pub open spec fn update_events(lines: Seq<LineModel>, skip: nat) -> Seq<FileAddModel>
    decreases lines.len(),
{
    if lines.len() == 0 {
        Seq::empty()
    } else {
        match lines[0] {
            LineModel::Tag(TagModelKey) => {
                match TagModelKey {
                    crate::manifest::TagModel::Key(k) => seq![FileAddModel::Key(key_uri(k))]
                        + update_events(lines.skip(1), skip),
                    _ => update_events(lines.skip(1), skip),
                }
            },
            LineModel::Uri(u) => if skip == 0 {
                seq![FileAddModel::Segment(u)] + update_events(lines.skip(1), 0)
            } else {
                update_events(lines.skip(1), (skip - 1) as nat)
            },
        }
    }
}

/// The count after one update: positions covered never decrease.
pub open spec fn count_after(count: nat, lines: Seq<LineModel>) -> nat {
    if uri_count(lines) > count {
        uri_count(lines)
    } else {
        count
    }
}

/// The segment URIs among a sequence of events, in order.
pub open spec fn segments_of(events: Seq<FileAddModel>) -> Seq<Seq<char>>
    decreases events.len(),
{
    if events.len() == 0 {
        Seq::empty()
    } else {
        match events[0] {
            FileAddModel::Segment(u) => seq![u] + segments_of(events.skip(1)),
            FileAddModel::Key(u) => segments_of(events.skip(1)),
        }
    }
}

/// The state of the watcher: the last manifest and how many URI positions
/// have already emitted a segment.
pub struct ManifestWatcher {
    segment_count: usize,
    lines: Vec<Line>,
}

pub struct WatcherModel {
    pub segment_count: nat,
    pub lines: Seq<LineModel>,
}

impl View for ManifestWatcher {
    type V = WatcherModel;

    closed spec fn view(&self) -> WatcherModel {
        WatcherModel {
            segment_count: self.segment_count as nat,
            lines: self.lines@.map_values(|l: Line| l@),
        }
    }
}

impl ManifestWatcher {
    /// A fresh watcher: nothing seen, nothing emitted.
    pub fn new() -> (r: ManifestWatcher)
        ensures
            r@.segment_count == 0,
            r@.lines == Seq::<LineModel>::empty(),
    {
        let r = ManifestWatcher { segment_count: 0, lines: Vec::new() };
        proof {
            assert(r@.lines =~= Seq::<LineModel>::empty());
        }
        r
    }

    /// Feed one manifest version; the result is the events it causes, in
    /// manifest order.
    pub fn update(&mut self, new_manifest: Vec<Line>) -> (r: Vec<FileAdd>)
        requires
            old(self)@.segment_count + new_manifest@.len() <= usize::MAX,
        ensures
            r@.map_values(|e: FileAdd| e@) == update_events(
                new_manifest@.map_values(|l: Line| l@),
                old(self)@.segment_count,
            ),
            final(self)@.segment_count == count_after(
                old(self)@.segment_count,
                new_manifest@.map_values(|l: Line| l@),
            ),
            final(self)@.lines == new_manifest@.map_values(|l: Line| l@),
    {
        let ghost views = new_manifest@.map_values(|l: Line| l@);
        let ghost count0 = self.segment_count as nat;
        let mut events: Vec<FileAdd> = Vec::new();
        let mut i: usize = 0;
        let mut seen: usize = 0;
        proof {
            assert(views.skip(0) =~= views);
            lemma_update_events_prefix(views, count0);
        }
        while i < new_manifest.len()
            invariant
                i <= views.len(),
                views == new_manifest@.map_values(|l: Line| l@),
                new_manifest@.len() == views.len(),
                count0 + views.len() <= usize::MAX,
                seen <= i,
                seen as nat == uri_count(views.take(i as int)),
                self.segment_count as nat == count_after(count0, views.take(i as int)),
                self.lines == old(self).lines,
                update_events(views, count0) == events@.map_values(|e: FileAdd| e@)
                    + update_events(
                    views.skip(i as int),
                    if count0 >= seen as nat {
                        (count0 - seen as nat) as nat
                    } else {
                        0
                    },
                ),
            decreases views.len() - i,
        {
            let ghost skip_pre: nat = if count0 >= seen as nat {
                (count0 - seen as nat) as nat
            } else {
                0
            };
            let line = &new_manifest[i];
            proof {
                assert(line@ == views[i as int]);
                assert(views.skip(i as int)[0] == views[i as int]);
                assert(views.skip(i as int).skip(1) =~= views.skip(i as int + 1));
                assert(views.take(i as int + 1) =~= views.take(i as int).push(views[i as int]));
                lemma_uri_count_snoc(views.take(i as int), views[i as int]);
            }
            proof {
                assert(uri_count(views.take(i as int + 1)) == uri_count(views.take(i as int))
                    + (match views[i as int] {
                    LineModel::Uri(u) => 1 as nat,
                    _ => 0 as nat,
                }));
            }
            match line {
                Line::Tag(Tag::Key(attrs)) => {
                    let ghost old_events = events@.map_values(|e: FileAdd| e@);
                    let uri_text: String = match &attrs.uri {
                        Some(u) => u.clone(),
                        None => String::new(),
                    };
                    events.push(FileAdd::Key(uri_text));
                    proof {
                        let now = events@.map_values(|e: FileAdd| e@);
                        assert(now =~= old_events.push(
                            FileAddModel::Key(key_uri(attrs@)),
                        ));
                        assert(old_events + update_events(views.skip(i as int), skip_pre) =~= now
                            + update_events(views.skip(i as int + 1), skip_pre));
                    }
                },
                Line::Uri(u) => {
                    seen = seen + 1;
                    if seen > self.segment_count {
                        self.segment_count = self.segment_count + 1;
                        let ghost old_events = events@.map_values(|e: FileAdd| e@);
                        events.push(FileAdd::Segment(u.clone()));
                        proof {
                            let now = events@.map_values(|e: FileAdd| e@);
                            assert(now =~= old_events.push(FileAddModel::Segment(u@)));
                            assert(skip_pre == 0);
                            assert(old_events + update_events(views.skip(i as int), skip_pre) =~=
                                now + update_events(views.skip(i as int + 1), 0));
                        }
                    } else {
                        proof {
                            assert(skip_pre >= 1);
                        }
                    }
                },
                Line::Tag(t) => {
                    proof {
                        assert(update_events(views.skip(i as int), skip_pre) == update_events(
                            views.skip(i as int + 1),
                            skip_pre,
                        ));
                    }
                },
            }
            proof {
                assert(seen as nat == uri_count(views.take(i as int + 1)));
                assert(self.segment_count as nat == count_after(
                    count0,
                    views.take(i as int + 1),
                ));
            }
            i += 1;
        }
        proof {
            assert(views.take(views.len() as int) =~= views);
            assert(views.skip(views.len() as int) =~= Seq::<LineModel>::empty());
            assert(events@.map_values(|e: FileAdd| e@) + Seq::<FileAddModel>::empty()
                =~= events@.map_values(|e: FileAdd| e@));
        }
        self.lines = new_manifest;
        events
    }
}

proof fn lemma_update_events_prefix(views: Seq<LineModel>, count0: nat)
    ensures
        Seq::<FileAddModel>::empty() + update_events(views, count0) =~= update_events(
            views,
            count0,
        ),
{
}

proof fn lemma_uri_count_snoc(lines: Seq<LineModel>, l: LineModel)
    ensures
        uri_count(lines.push(l)) == uri_count(lines) + (match l {
            LineModel::Uri(u) => 1 as nat,
            _ => 0 as nat,
        }),
    decreases lines.len(),
{
    let p = lines.push(l);
    if lines.len() == 0 {
        assert(p.skip(1) =~= Seq::<LineModel>::empty());
        assert(p[0] == l);
        assert(uri_count(p.skip(1)) == 0);
        assert(uri_count(p) == (match l {
            LineModel::Uri(u) => 1 as nat,
            _ => 0 as nat,
        }));
        assert(uri_count(lines) == 0);
    } else {
        assert(p.skip(1) =~= lines.skip(1).push(l));
        lemma_uri_count_snoc(lines.skip(1), l);
        assert(p[0] == lines[0]);
        assert(uri_count(p) == (match p[0] {
            LineModel::Uri(u) => 1 as nat,
            _ => 0 as nat,
        }) + uri_count(lines.skip(1).push(l)));
        assert(uri_count(lines) == (match lines[0] {
            LineModel::Uri(u) => 1 as nat,
            _ => 0 as nat,
        }) + uri_count(lines.skip(1)));
    }
}

// ---------------------------------------------------------------------
// The watcher laws.
// ---------------------------------------------------------------------

/// One update emits as segments exactly the URIs of the new manifest
/// after the first `skip` positions, in order; nothing already covered
/// is re-emitted.
pub proof fn lemma_update_emits_new_positions(lines: Seq<LineModel>, skip: nat)
    ensures
        segments_of(update_events(lines, skip)) =~= if skip <= uri_count(lines) {
            uris_of(lines).skip(skip as int)
        } else {
            Seq::<Seq<char>>::empty()
        },
        uris_of(lines).len() == uri_count(lines),
    decreases lines.len(),
{
    if lines.len() == 0 {
    } else {
        match lines[0] {
            LineModel::Tag(t) => {
                lemma_update_emits_new_positions(lines.skip(1), skip);
                match t {
                    crate::manifest::TagModel::Key(k) => {
                        assert(update_events(lines, skip) == seq![FileAddModel::Key(key_uri(k))]
                            + update_events(lines.skip(1), skip));
                        assert(update_events(lines, skip)[0] == FileAddModel::Key(key_uri(k)));
                        assert(update_events(lines, skip).skip(1) =~= update_events(
                            lines.skip(1),
                            skip,
                        ));
                    },
                    _ => {},
                }
            },
            LineModel::Uri(u) => {
                if skip == 0 {
                    lemma_update_emits_new_positions(lines.skip(1), 0);
                    assert(update_events(lines, 0)[0] == FileAddModel::Segment(u));
                    assert(update_events(lines, 0).skip(1) =~= update_events(lines.skip(1), 0));
                    assert(uris_of(lines).skip(0) =~= uris_of(lines));
                    assert(uris_of(lines)[0] == u);
                    assert(uris_of(lines).skip(1) =~= uris_of(lines.skip(1)));
                    assert(uris_of(lines.skip(1)).skip(0) =~= uris_of(lines.skip(1)));
                } else {
                    lemma_update_emits_new_positions(lines.skip(1), (skip - 1) as nat);
                    assert(uris_of(lines) =~= seq![u] + uris_of(lines.skip(1)));
                    assert(uri_count(lines) == 1 + uri_count(lines.skip(1)));
                    if skip <= uri_count(lines) {
                        assert(uris_of(lines).skip(skip as int) =~= uris_of(lines.skip(1)).skip(
                            skip as int - 1,
                        ));
                    }
                }
            },
        }
    }
}

/// Each URI position emits a segment at most once over the life of the
/// watcher: an update from count `c` emits exactly the positions
/// `c .. count_after(c, m)`, and the count never decreases, so the
/// position ranges of successive updates are disjoint.
pub proof fn lemma_positions_emit_once(m1: Seq<LineModel>, m2: Seq<LineModel>, c: nat)
    ensures
        segments_of(update_events(m1, c)).len() == count_after(c, m1) - c <= uri_count(m1),
        c <= count_after(c, m1) <= count_after(count_after(c, m1), m2),
        segments_of(update_events(m2, count_after(c, m1))).len() == count_after(
            count_after(c, m1),
            m2,
        ) - count_after(c, m1),
{
    lemma_update_emits_new_positions(m1, c);
    lemma_update_emits_new_positions(m2, count_after(c, m1));
}

/// The full history law: over any sequence of updates the watcher emits
/// one segment per position in `0 .. max uri count`, each exactly once,
/// carrying the URI of the first manifest that covered that position.
pub open spec fn run_watcher(manifests: Seq<Seq<LineModel>>, count: nat) -> (Seq<FileAddModel>, nat)
    decreases manifests.len(),
{
    if manifests.len() == 0 {
        (Seq::empty(), count)
    } else {
        let head = update_events(manifests[0], count);
        let (rest, final_count) = run_watcher(manifests.skip(1), count_after(count, manifests[0]));
        (head + rest, final_count)
    }
}

/// The URI at position `p` of the first manifest that has more than `p`
/// URI lines.
pub open spec fn uri_at_first(manifests: Seq<Seq<LineModel>>, p: nat) -> Seq<char>
    decreases manifests.len(),
{
    if manifests.len() == 0 {
        Seq::empty()
    } else if p < uri_count(manifests[0]) {
        uris_of(manifests[0])[p as int]
    } else {
        uri_at_first(manifests.skip(1), p)
    }
}

proof fn lemma_segments_of_concat(a: Seq<FileAddModel>, b: Seq<FileAddModel>)
    ensures
        segments_of(a + b) =~= segments_of(a) + segments_of(b),
    decreases a.len(),
{
    if a.len() == 0 {
        assert(a + b =~= b);
    } else {
        assert((a + b).skip(1) =~= a.skip(1) + b);
        lemma_segments_of_concat(a.skip(1), b);
        assert((a + b)[0] == a[0]);
        match a[0] {
            FileAddModel::Segment(u) => {
                assert(segments_of(a + b) =~= seq![u] + segments_of(a.skip(1) + b));
                assert(segments_of(a) =~= seq![u] + segments_of(a.skip(1)));
            },
            FileAddModel::Key(u) => {},
        }
    }
}

/// The multiset law of the watcher: starting from `count`, a history of
/// updates emits exactly one segment for each position from `count` up
/// to the largest URI count seen, in position order, and the segment at
/// position `p` is the URI at `p` of the first manifest that reached it.
pub proof fn lemma_watcher_history(manifests: Seq<Seq<LineModel>>, count: nat)
    ensures
        count <= run_watcher(manifests, count).1,
        segments_of(run_watcher(manifests, count).0) =~= Seq::new(
            (run_watcher(manifests, count).1 - count) as nat,
            |k: int| uri_at_first(manifests, (count + k) as nat),
        ),
    decreases manifests.len(),
{
    if manifests.len() == 0 {
    } else {
        let m0 = manifests[0];
        let c1 = count_after(count, m0);
        lemma_update_emits_new_positions(m0, count);
        lemma_watcher_history(manifests.skip(1), c1);
        let head = update_events(m0, count);
        let (rest, final_count) = run_watcher(manifests.skip(1), c1);
        lemma_segments_of_concat(head, rest);
        let total = segments_of(head + rest);
        assert forall|k: int| 0 <= k < final_count - count implies total[k] == uri_at_first(
            manifests,
            (count + k) as nat,
        ) by {
            if k < c1 - count {
                assert(total[k] == segments_of(head)[k]);
                assert(segments_of(head)[k] == uris_of(m0)[count + k]);
                assert(((count + k) as nat) < uri_count(m0));
            } else {
                assert(total[k] == segments_of(rest)[k - (c1 - count)]);
                assert(segments_of(rest)[k - (c1 - count)] == uri_at_first(
                    manifests.skip(1),
                    (c1 + (k - (c1 - count))) as nat,
                ));
                assert(((count + k) as nat) >= uri_count(m0));
                assert(uri_at_first(manifests, (count + k) as nat) == uri_at_first(
                    manifests.skip(1),
                    (count + k) as nat,
                ));
            }
        }
        assert(total =~= Seq::new(
            (final_count - count) as nat,
            |k: int| uri_at_first(manifests, (count + k) as nat),
        ));
    }
}

} // verus!

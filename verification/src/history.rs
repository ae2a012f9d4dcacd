//! Past sessions, kept so a paste can be replayed.
//!
//! A flushed session is archived, and several archived sessions can be
//! ticked and pasted as one block. The cap is on entries, with a separate
//! ceiling on how large an image may be before only its description is kept.

use std::collections::VecDeque;

use vstd::prelude::*;

use crate::clock::{now_ms, ClockReading};
use crate::item::{
    copy_opt_string, preview_of, opt_view, ClipItem, ClipKind, ClipModel, ImageModel,
    KindModel,
};
use crate::session::{clean_name, item_models};
use crate::template::{models, observed, render, rendered, Template, WorldModel};
use crate::text::{
    chars_of, contains_chars, decimal, decimal_chars, join, join_chars, lowercase,
    occurs_in, push_all, push_str_chars, split_words, string_of, to_lower, trim_chars, truncate_chars,
    truncated, words,
};

verus! {

/// How many past sessions to keep when nothing says otherwise.
pub const DEFAULT_LIMIT: usize = 50;

/// Beyond this, an archived image keeps its dimensions but not its pixels.
pub const MAX_ARCHIVED_IMAGE_BYTES: usize = 4194304;

/// One finished session.
#[derive(Clone, Debug)]
pub struct HistoryEntry {
    pub id: u64,
    pub ended_at_ms: u64,
    /// What the session was called.
    pub name: Option<String>,
    /// The fragments that were pasted.
    pub items: Vec<ClipItem>,
}

/// A finished session, as values.
#[verifier::ext_equal]
pub struct EntryModel {
    pub id: u64,
    pub ended_at_ms: u64,
    pub name: Option<Seq<char>>,
    pub items: Seq<ClipModel>,
}

impl View for HistoryEntry {
    type V = EntryModel;

    open spec fn view(&self) -> EntryModel {
        EntryModel {
            id: self.id,
            ended_at_ms: self.ended_at_ms,
            name: opt_view(self.name),
            items: item_models(self.items@),
        }
    }
}

impl HistoryEntry {
    /// How many fragments were pasted.
    pub fn len(&self) -> (n: usize)
        ensures
            n == self@.items.len(),
    {
        self.items.len()
    }

    pub fn is_empty(&self) -> (b: bool)
        ensures
            b == (self@.items.len() == 0),
    {
        self.items.len() == 0
    }
}

/// The archive of finished sessions, oldest first.
#[derive(Clone, Debug)]
pub struct History {
    entries: VecDeque<HistoryEntry>,
    next_id: u64,
    limit: usize,
}

/// The archive, as values.
#[verifier::ext_equal]
pub struct HistoryModel {
    pub entries: Seq<EntryModel>,
    pub next_id: u64,
    pub limit: usize,
}

/// The entries of a vector, as values.
pub open spec fn entry_models(v: Seq<HistoryEntry>) -> Seq<EntryModel> {
    v.map_values(|e: HistoryEntry| e@)
}

/// The entries behind a list of references, as values.
pub open spec fn entry_refs(v: Seq<&HistoryEntry>) -> Seq<EntryModel> {
    v.map_values(|e: &HistoryEntry| e@)
}

impl View for History {
    type V = HistoryModel;

    closed spec fn view(&self) -> HistoryModel {
        HistoryModel {
            entries: entry_models(self.entries@),
            next_id: self.next_id,
            limit: self.limit,
        }
    }
}

/// Every id in the archive was handed out before `next_id`.
pub open spec fn ids_issued(m: HistoryModel) -> bool {
    forall|i: int| 0 <= i < m.entries.len() ==> (#[trigger] m.entries[i]).id < m.next_id
}

/// A limit of zero is taken as one.
pub open spec fn at_least_one(n: usize) -> usize {
    if n == 0 {
        1
    } else {
        n
    }
}

/// The newest `limit` entries of `s`.
pub open spec fn trimmed(s: Seq<EntryModel>, limit: usize) -> Seq<EntryModel> {
    if s.len() > limit {
        s.skip(s.len() - limit)
    } else {
        s
    }
}

/// An image as the archive keeps it: never the raw pixels, and only the
/// dimensions when its PNG is over the ceiling.
pub open spec fn shrunk(m: ClipModel) -> ClipModel {
    match m.kind {
        KindModel::Image(image) => ClipModel {
            kind: KindModel::Image(
                if image.png.len() > MAX_ARCHIVED_IMAGE_BYTES {
                    ImageModel { rgba: seq![], png: seq![], thumbnail: seq![], ..image }
                } else {
                    ImageModel { rgba: seq![], ..image }
                },
            ),
            ..m
        },
        _ => m,
    }
}

/// The entry that archiving these fragments makes.
pub open spec fn new_entry(
    id: u64,
    ended_at_ms: u64,
    name: Option<Seq<char>>,
    items: Seq<ClipModel>,
) -> EntryModel {
    EntryModel { id, ended_at_ms, name, items: items.map_values(|it: ClipModel| shrunk(it)) }
}

/// The archive after `e` is added under the next id and the oldest entries
/// beyond the limit are dropped.
pub open spec fn archived(m: HistoryModel, e: EntryModel) -> HistoryModel {
    HistoryModel {
        entries: trimmed(m.entries.push(e), m.limit),
        next_id: (m.next_id + 1) as u64,
        limit: m.limit,
    }
}

/// The ids of the entries named in `ids`, in archive order.
pub open spec fn selected_ids(es: Seq<EntryModel>, ids: Seq<u64>) -> Seq<u64>
    decreases es.len(),
{
    if es.len() == 0 {
        seq![]
    } else {
        selected_ids(es.drop_last(), ids) + if ids.contains(es.last().id) {
            seq![es.last().id]
        } else {
            seq![]
        }
    }
}

/// The fragments of the entries named in `ids`, oldest session first.
pub open spec fn combined_items(es: Seq<EntryModel>, ids: Seq<u64>) -> Seq<ClipModel>
    decreases es.len(),
{
    if es.len() == 0 {
        seq![]
    } else {
        combined_items(es.drop_last(), ids) + if ids.contains(es.last().id) {
            es.last().items
        } else {
            seq![]
        }
    }
}

/// The archive without any entry of this id.
pub open spec fn without_entry(es: Seq<EntryModel>, id: u64) -> Seq<EntryModel>
    decreases es.len(),
{
    if es.len() == 0 {
        seq![]
    } else {
        without_entry(es.drop_last(), id) + if es.last().id != id {
            seq![es.last()]
        } else {
            seq![]
        }
    }
}

/// Where the first entry of this id is.
pub open spec fn first_entry(es: Seq<EntryModel>, id: u64) -> Option<int>
    decreases es.len(),
{
    if es.len() == 0 {
        None
    } else if es[0].id == id {
        Some(0)
    } else {
        match first_entry(es.drop_first(), id) {
            Some(p) => Some(p + 1),
            None => None,
        }
    }
}

/// Some entry has this id.
pub open spec fn has_entry(es: Seq<EntryModel>, id: u64) -> bool {
    exists|i: int| 0 <= i < es.len() && (#[trigger] es[i]).id == id
}

proof fn lemma_first_entry(es: Seq<EntryModel>, id: u64)
    ensures
        match first_entry(es, id) {
            Some(p) => 0 <= p < es.len() && es[p].id == id && forall|k: int|
                0 <= k < p ==> (#[trigger] es[k]).id != id,
            None => !has_entry(es, id),
        },
    decreases es.len(),
{
    if es.len() > 0 {
        lemma_first_entry(es.drop_first(), id);
        if es[0].id != id {
            match first_entry(es.drop_first(), id) {
                Some(p) => {
                    assert(es[p + 1] == es.drop_first()[p]);
                    assert forall|k: int| 0 <= k < p + 1 implies (#[trigger] es[k]).id != id by {
                        if k > 0 {
                            assert(es[k] == es.drop_first()[k - 1]);
                        }
                    }
                },
                None => {
                    assert forall|i: int| 0 <= i < es.len() implies (#[trigger] es[i]).id != id by {
                        if i > 0 {
                            assert(es[i] == es.drop_first()[i - 1]);
                        }
                    }
                },
            }
        }
    }
}

proof fn lemma_without_entry_below(es: Seq<EntryModel>, id: u64, bound: u64)
    requires
        forall|i: int| 0 <= i < es.len() ==> (#[trigger] es[i]).id < bound,
    ensures
        forall|i: int|
            0 <= i < without_entry(es, id).len() ==> (#[trigger] without_entry(es, id)[i]).id
                < bound,
    decreases es.len(),
{
    if es.len() > 0 {
        let init = es.drop_last();
        assert forall|i: int| 0 <= i < init.len() implies (#[trigger] init[i]).id < bound by {
            assert(init[i] == es[i]);
        }
        lemma_without_entry_below(init, id, bound);
        let w = without_entry(es, id);
        let wi = without_entry(init, id);
        assert forall|i: int| 0 <= i < w.len() implies (#[trigger] w[i]).id < bound by {
            if i < wi.len() {
                assert(w[i] == wi[i]);
            } else {
                assert(w[i] == es[es.len() - 1]);
            }
        }
    }
}

/// Whether `ids` holds `id`.
pub(crate) fn contains_id(ids: &[u64], id: u64) -> (b: bool)
    ensures
        b == ids@.contains(id),
{
    let mut i: usize = 0;
    while i < ids.len()
        invariant
            i <= ids@.len(),
            forall|k: int| 0 <= k < i ==> ids@[k] != id,
        decreases ids.len() - i,
    {
        if ids[i] == id {
            assert(ids@[i as int] == id);
            return true;
        }
        i = i + 1;
    }
    false
}

/// Drop what is too big to keep, and the raw pixels either way.
fn shrink(item: ClipItem) -> (r: ClipItem)
    ensures
        r@ == shrunk(item@),
{
    let ghost orig = item@;
    let ClipItem { id, kind, captured_at_ms, source, included, edited } = item;
    let kind = match kind {
        ClipKind::Image { image } => {
            let mut image = image;
            image.rgba = Vec::new();
            if image.png.len() > MAX_ARCHIVED_IMAGE_BYTES {
                image.png = Vec::new();
                image.thumbnail = String::new();
            }
            ClipKind::Image { image }
        },
        other => other,
    };
    let r = ClipItem { id, kind, captured_at_ms, source, included, edited };
    proof {
        assert(r@ =~= shrunk(orig));
    }
    r
}

impl Default for History {
    fn default() -> (h: Self)
        ensures
            h@.entries.len() == 0,
            h@.next_id == 1,
            h@.limit == DEFAULT_LIMIT,
    {
        let h = History { entries: VecDeque::new(), next_id: 1, limit: DEFAULT_LIMIT };
        proof {
            assert(h@.entries =~= Seq::<EntryModel>::empty());
        }
        h
    }
}

impl History {
    /// An empty archive keeping at most `limit` sessions; zero is taken as one.
    pub fn with_limit(limit: usize) -> (h: Self)
        ensures
            h@.entries.len() == 0,
            h@.next_id == 1,
            h@.limit == at_least_one(limit),
    {
        let h = History {
            entries: VecDeque::new(),
            next_id: 1,
            limit: if limit == 0 {
                1
            } else {
                limit
            },
        };
        proof {
            assert(h@.entries =~= Seq::<EntryModel>::empty());
        }
        h
    }

    /// An archive rebuilt from what was saved: the entries oldest first, the
    /// next id to hand out, and the limit, all taken as they are.
    pub fn restore(entries: Vec<HistoryEntry>, next_id: u64, limit: usize) -> (h: Self)
        ensures
            h@ == (HistoryModel { entries: entry_models(entries@), next_id, limit }),
    {
        let ghost all = entries@;
        let mut rest = entries;
        let mut kept: VecDeque<HistoryEntry> = VecDeque::new();
        while rest.len() > 0
            invariant
                rest@.len() <= all.len(),
                rest@ == all.subrange(0, rest@.len() as int),
                kept@ == all.subrange(rest@.len() as int, all.len() as int),
            decreases rest.len(),
        {
            let ghost before = rest@;
            match rest.pop() {
                Some(e) => {
                    let ghost k0 = kept@;
                    kept.push_front(e);
                    proof {
                        assert(e == all[rest@.len() as int]);
                        assert(kept@ == seq![e] + k0);
                        assert(rest@ =~= all.subrange(0, rest@.len() as int));
                        assert(kept@ =~= all.subrange(rest@.len() as int, all.len() as int));
                    }
                },
                None => {},
            }
        }
        proof {
            assert(kept@ =~= all);
        }
        History { entries: kept, next_id, limit }
    }

    /// The saved form: the entries oldest first, the next id and the limit.
    pub fn parts(&self) -> (r: (Vec<&HistoryEntry>, u64, usize))
        ensures
            entry_refs(r.0@) == self@.entries,
            r.1 == self@.next_id,
            r.2 == self@.limit,
    {
        let ghost es = entry_models(self.entries@);
        let mut r: Vec<&HistoryEntry> = Vec::new();
        let mut i: usize = 0;
        while i < self.entries.len()
            invariant
                i <= self.entries@.len(),
                es == entry_models(self.entries@),
                entry_refs(r@) == es.take(i as int),
            decreases self.entries.len() - i,
        {
            r.push(&self.entries[i]);
            proof {
                assert(es.take(i + 1) =~= es.take(i as int).push(es[i as int]));
                assert(entry_refs(r@) =~= es.take(i + 1));
            }
            i = i + 1;
        }
        proof {
            assert(es.take(i as int) =~= es);
        }
        (r, self.next_id, self.limit)
    }

    /// Change the cap, dropping the oldest sessions at once when there are
    /// now too many. Zero is taken as one.
    pub fn set_limit(&mut self, limit: usize)
        ensures
            final(self)@ == (HistoryModel {
                entries: trimmed(old(self)@.entries, at_least_one(limit)),
                limit: at_least_one(limit),
                ..old(self)@
            }),
            final(self)@.entries.len() <= final(self)@.limit,
            ids_issued(old(self)@) ==> ids_issued(final(self)@),
    {
        self.limit = if limit == 0 {
            1
        } else {
            limit
        };
        self.trim();
        proof {
            assert(self@ =~= (HistoryModel {
                entries: trimmed(old(self)@.entries, at_least_one(limit)),
                limit: at_least_one(limit),
                ..old(self)@
            }));
        }
    }

    /// Whether there is still an id to hand out.
    pub fn ids_left(&self) -> (b: bool)
        ensures
            b == (self@.next_id < u64::MAX),
    {
        self.next_id < u64::MAX
    }

    pub fn limit(&self) -> (n: usize)
        ensures
            n == self@.limit,
    {
        self.limit
    }

    /// Newest first, which is the order anyone looking for "the one I just
    /// did" expects.
    pub fn entries(&self) -> (r: Vec<&HistoryEntry>)
        ensures
            entry_refs(r@) == self@.entries.reverse(),
    {
        let mut r: Vec<&HistoryEntry> = Vec::new();
        let n = self.entries.len();
        let mut i: usize = n;
        while i > 0
            invariant
                i <= n == self.entries@.len(),
                entry_refs(r@) == entry_models(self.entries@).subrange(i as int, n as int).reverse(),
            decreases i,
        {
            i = i - 1;
            let ghost prev = r@;
            r.push(&self.entries[i]);
            proof {
                let es = entry_models(self.entries@);
                let want = es.subrange(i as int, n as int).reverse();
                assert(entry_refs(r@) =~= entry_refs(prev).push(es[i as int]));
                assert(want =~= es.subrange(i + 1, n as int).reverse().push(es[i as int]));
            }
        }
        proof {
            assert(entry_models(self.entries@).subrange(0, n as int) =~= entry_models(self.entries@));
        }
        r
    }

    pub fn len(&self) -> (n: usize)
        ensures
            n == self@.entries.len(),
    {
        self.entries.len()
    }

    pub fn is_empty(&self) -> (b: bool)
        ensures
            b == (self@.entries.len() == 0),
    {
        self.entries.len() == 0
    }

    /// The first entry with this id.
    pub fn get(&self, id: u64) -> (r: Option<&HistoryEntry>)
        ensures
            match first_entry(self@.entries, id) {
                Some(p) => r matches Some(e) && e@ == self@.entries[p],
                None => r is None,
            },
    {
        let ghost es = self@.entries;
        let mut i: usize = 0;
        proof {
            assert(es.skip(0) =~= es);
        }
        while i < self.entries.len()
            invariant
                i <= self.entries@.len(),
                es == entry_models(self.entries@),
                forall|k: int| 0 <= k < i ==> (#[trigger] es[k]).id != id,
            decreases self.entries.len() - i,
        {
            if self.entries[i].id == id {
                proof {
                    lemma_first_entry(es, id);
                    assert(es[i as int].id == id);
                }
                return Some(&self.entries[i]);
            }
            i = i + 1;
        }
        proof {
            lemma_first_entry(es, id);
        }
        None
    }

    /// The most recent session, which is what "paste that again" means.
    pub fn latest(&self) -> (r: Option<&HistoryEntry>)
        ensures
            self@.entries.len() == 0 ==> r is None,
            self@.entries.len() > 0 ==> (r matches Some(e) && e@ == self@.entries.last()),
    {
        if self.entries.len() == 0 {
            None
        } else {
            Some(&self.entries[self.entries.len() - 1])
        }
    }

    /// Keep only the ids that still refer to something, in the order the
    /// sessions happened. A stale id is simply no longer part of the
    /// selection.
    pub fn retain_existing(&self, ids: &[u64]) -> (r: Vec<u64>)
        ensures
            r@ == selected_ids(self@.entries, ids@),
    {
        let ghost es = self@.entries;
        let mut r: Vec<u64> = Vec::new();
        let mut i: usize = 0;
        while i < self.entries.len()
            invariant
                i <= self.entries@.len(),
                es == entry_models(self.entries@),
                r@ == selected_ids(es.take(i as int), ids@),
            decreases self.entries.len() - i,
        {
            let id = self.entries[i].id;
            if contains_id(ids, id) {
                r.push(id);
            }
            proof {
                let t = es.take(i + 1);
                assert(t.drop_last() =~= es.take(i as int));
                assert(t.last().id == id);
                assert(r@ =~= selected_ids(t, ids@));
            }
            i = i + 1;
        }
        proof {
            assert(es.take(es.len() as int) =~= es);
        }
        r
    }

    /// Archive a finished session under the next id, dropping the oldest
    /// entries beyond the limit. An empty session is not kept.
    pub fn record(&mut self, items: Vec<ClipItem>, name: Option<String>, ended_at_ms: u64) -> (r:
        Option<u64>)
        requires
            old(self)@.next_id < u64::MAX,
        ensures
            items@.len() == 0 ==> r is None && final(self)@ == old(self)@,
            items@.len() > 0 ==> r == Some(old(self)@.next_id) && final(self)@ == archived(
                old(self)@,
                new_entry(old(self)@.next_id, ended_at_ms, opt_view(name), item_models(items@)),
            ),
            final(self)@.entries.len() <= final(self)@.limit || final(self)@ == old(self)@,
            ids_issued(old(self)@) ==> ids_issued(final(self)@),
    {
        if items.len() == 0 {
            return None;
        }
        let ghost m = self@;
        let id: u64 = self.next_id;
        self.next_id = self.next_id + 1;
        let mut kept: Vec<ClipItem> = Vec::new();
        let mut items = items;
        let ghost src = item_models(items@);
        let n = items.len();
        let mut i: usize = 0;
        while i < n
            invariant
                i <= n == src.len(),
                items@.len() == n - i,
                forall|k: int| 0 <= k < n - i ==> (#[trigger] items@[k])@ == src[i + k],
                item_models(kept@) == src.take(i as int).map_values(|it: ClipModel| shrunk(it)),
            decreases n - i,
        {
            let ghost before = items@;
            let it = items.remove(0);
            proof {
                assert(it@ == src[i + 0]);
            }
            let s = shrink(it);
            let ghost prev = kept@;
            kept.push(s);
            proof {
                assert(item_models(kept@) =~= item_models(prev).push(shrunk(src[i as int])));
                assert(src.take(i + 1) =~= src.take(i as int).push(src[i as int]));
                assert(item_models(kept@) =~= src.take(i + 1).map_values(|it: ClipModel| shrunk(it)));
                assert forall|k: int| 0 <= k < n - (i + 1) implies (#[trigger] items@[k])@ == src[i + 1 + k] by {
                    assert(items@[k] == before[k + 1]);
                }
            }
            i = i + 1;
        }
        proof {
            assert(src.take(n as int) =~= src);
        }
        self.entries.push_back(HistoryEntry { id, ended_at_ms, name, items: kept });
        self.trim();
        proof {
            let e = new_entry(m.next_id, ended_at_ms, opt_view(name), src);
            assert(self@ =~= archived(m, e));
            let s = m.entries.push(e);
            if ids_issued(m) {
                assert forall|k: int| 0 <= k < self@.entries.len() implies (
                #[trigger] self@.entries[k]).id < self@.next_id by {
                    if s.len() > m.limit {
                        assert(self@.entries[k] == s[k + (s.len() - m.limit)]);
                    } else {
                        assert(self@.entries[k] == s[k]);
                    }
                }
            }
        }
        Some(id)
    }

    /// Name an archived session, or clear the name by passing something blank.
    pub fn rename(&mut self, id: u64, name: &str) -> (r: bool)
        ensures
            match first_entry(old(self)@.entries, id) {
                Some(p) => r && final(self)@ == (HistoryModel {
                    entries: old(self)@.entries.update(
                        p,
                        EntryModel { name: clean_name(name@), ..old(self)@.entries[p] },
                    ),
                    ..old(self)@
                }),
                None => !r && final(self)@ == old(self)@,
            },
            ids_issued(old(self)@) ==> ids_issued(final(self)@),
    {
        let ghost es = self@.entries;
        proof {
            lemma_first_entry(es, id);
        }
        let mut i: usize = 0;
        while i < self.entries.len()
            invariant
                i <= self.entries@.len(),
                es == entry_models(self.entries@),
                self@ == old(self)@,
                forall|k: int| 0 <= k < i ==> (#[trigger] es[k]).id != id,
            decreases self.entries.len() - i,
        {
            if self.entries[i].id == id {
                proof {
                    assert(es[i as int].id == id);
                    lemma_first_entry(es, id);
                    match first_entry(es, id) {
                        Some(p) => {
                            if p < i {
                                assert(es[p].id != id);
                            } else if p > i {
                                assert(es[i as int].id != id);
                            }
                        },
                        None => {
                            assert(has_entry(es, id));
                        },
                    }
                }
                let v = chars_of(name);
                let t = trim_chars(v.as_slice());
                let new_name = if t.len() == 0 {
                    None
                } else {
                    Some(string_of(t.as_slice()))
                };
                match self.entries.remove(i) {
                    Some(e) => {
                        let mut e = e;
                        e.name = new_name;
                        self.entries.insert(i, e);
                    },
                    None => {},
                }
                proof {
                    assert(first_entry(es, id) == Some(i as int));
                    assert(self@ =~= (HistoryModel {
                        entries: es.update(i as int, EntryModel { name: clean_name(name@), ..es[i as int] }),
                        ..old(self)@
                    }));
                }
                return true;
            }
            i = i + 1;
        }
        false
    }

    /// Drop every entry with this id.
    pub fn remove(&mut self, id: u64) -> (r: bool)
        ensures
            r == has_entry(old(self)@.entries, id),
            final(self)@ == (HistoryModel {
                entries: without_entry(old(self)@.entries, id),
                ..old(self)@
            }),
            ids_issued(old(self)@) ==> ids_issued(final(self)@),
    {
        let ghost m = self@;
        let mut kept: VecDeque<HistoryEntry> = VecDeque::new();
        let mut found = false;
        let mut old_entries: VecDeque<HistoryEntry> = VecDeque::new();
        std::mem::swap(&mut old_entries, &mut self.entries);
        let n = old_entries.len();
        let mut i: usize = 0;
        while i < n
            invariant
                i <= n == m.entries.len(),
                old_entries@.len() == n - i,
                forall|k: int| 0 <= k < n - i ==> (#[trigger] old_entries@[k])@ == m.entries[i + k],
                entry_models(kept@) == without_entry(m.entries.take(i as int), id),
                found == has_entry(m.entries.take(i as int), id),
            decreases n - i,
        {
            let ghost before = old_entries@;
            let ghost em = m.entries[i as int];
            match old_entries.pop_front() {
                Some(e) => {
                    proof {
                        assert(e@ == before[0]@);
                    }
                    if e.id == id {
                        found = true;
                    } else {
                        kept.push_back(e);
                    }
                },
                None => {},
            }
            proof {
                let t = m.entries.take(i + 1);
                assert(t.drop_last() =~= m.entries.take(i as int));
                assert(t.last() == em);
                assert(entry_models(kept@) =~= without_entry(t, id));
                if found {
                    if em.id == id {
                        assert(t[i as int].id == id);
                    } else {
                        let w = choose|w: int| 0 <= w < i && (#[trigger] m.entries.take(i as int)[w]).id == id;
                        assert(t[w] == m.entries.take(i as int)[w]);
                    }
                } else {
                    assert forall|w: int| 0 <= w < t.len() implies (#[trigger] t[w]).id != id by {
                        if w < i {
                            assert(t[w] == m.entries.take(i as int)[w]);
                        }
                    }
                }
                assert forall|k: int| 0 <= k < n - (i + 1) implies (#[trigger] old_entries@[k])@ == m.entries[i + 1 + k] by {
                    assert(old_entries@[k] == before[k + 1]);
                }
            }
            i = i + 1;
        }
        self.entries = kept;
        proof {
            if ids_issued(m) {
                lemma_without_entry_below(m.entries, id, m.next_id);
            }
            assert(m.entries.take(n as int) =~= m.entries);
            assert(self@ =~= (HistoryModel { entries: without_entry(m.entries, id), ..m }));
        }
        found
    }

    /// Forget every entry.
    pub fn clear(&mut self)
        ensures
            final(self)@ == (HistoryModel { entries: seq![], ..old(self)@ }),
            ids_issued(final(self)@),
    {
        self.entries.clear();
        proof {
            assert(self@ =~= (HistoryModel { entries: seq![], ..old(self)@ }));
        }
    }

    /// The fragments of the given entries, oldest session first, whatever
    /// order the ids arrive in.
    pub fn combined(&self, ids: &[u64]) -> (r: Vec<&ClipItem>)
        ensures
            models(r@) == combined_items(self@.entries, ids@),
    {
        let ghost es = self@.entries;
        let mut r: Vec<&ClipItem> = Vec::new();
        let mut i: usize = 0;
        while i < self.entries.len()
            invariant
                i <= self.entries@.len(),
                es == entry_models(self.entries@),
                models(r@) == combined_items(es.take(i as int), ids@),
            decreases self.entries.len() - i,
        {
            let e = &self.entries[i];
            if contains_id(ids, e.id) {
                let ghost before = models(r@);
                let mut j: usize = 0;
                while j < e.items.len()
                    invariant
                        j <= e.items@.len(),
                        models(r@) == before + item_models(e.items@).take(j as int),
                    decreases e.items.len() - j,
                {
                    let ghost prev = r@;
                    r.push(&e.items[j]);
                    proof {
                        let im = item_models(e.items@);
                        assert(models(r@) =~= models(prev).push(im[j as int]));
                        assert(im.take(j + 1) =~= im.take(j as int).push(im[j as int]));
                        assert(models(r@) =~= before + item_models(e.items@).take(j + 1));
                    }
                    j = j + 1;
                }
                proof {
                    assert(item_models(e.items@).take(e.items@.len() as int) =~= item_models(e.items@));
                }
            }
            proof {
                let t = es.take(i + 1);
                assert(t.drop_last() =~= es.take(i as int));
                assert(t.last() == e@);
                assert(models(r@) =~= combined_items(t, ids@));
            }
            i = i + 1;
        }
        proof {
            assert(es.take(es.len() as int) =~= es);
        }
        r
    }

    /// Render the given entries as one block, oldest session first and
    /// numbered across the whole block.
    pub fn render(&self, ids: &[u64], template: &Template, clock: &ClockReading) -> (r: String)
        ensures
            exists|w: WorldModel|
                observed(w, combined_items(self@.entries, ids@), template@, clock@) && r@ == rendered(
                    combined_items(self@.entries, ids@),
                    template@,
                    w,
                ),
    {
        let items = self.combined(ids);
        render(items.as_slice(), template, clock)
    }

    fn trim(&mut self)
        ensures
            final(self)@ == (HistoryModel {
                entries: trimmed(old(self)@.entries, old(self)@.limit),
                ..old(self)@
            }),
    {
        let ghost m = self@;
        proof {
            assert(m.entries.skip(0) =~= m.entries);
        }
        while self.entries.len() > self.limit
            invariant
                self.next_id == m.next_id,
                self.limit == m.limit,
                self.entries@.len() <= m.entries.len(),
                self.entries@.len() < m.entries.len() ==> self.entries@.len() >= m.limit,
                entry_models(self.entries@) == m.entries.skip(m.entries.len() - self.entries@.len()),
            decreases self.entries.len(),
        {
            let ghost before = self.entries@;
            self.entries.pop_front();
            proof {
                assert(self.entries@ =~= before.subrange(1, before.len() as int));
                assert(entry_models(self.entries@) =~= entry_models(before).subrange(
                    1,
                    before.len() as int,
                ));
                assert(entry_models(self.entries@) =~= m.entries.skip(
                    m.entries.len() - self.entries@.len(),
                ));
            }
        }
        proof {
            assert(self@ =~= (HistoryModel { entries: trimmed(m.entries, m.limit), ..m }));
        }
    }
}

/// How many of the fragments are images.
pub open spec fn image_count(items: Seq<ClipModel>) -> nat
    decreases items.len(),
{
    if items.len() == 0 {
        0
    } else {
        image_count(items.drop_last()) + if items.last().kind is Image {
            1nat
        } else {
            0nat
        }
    }
}

/// How many of the fragments are lists of files.
pub open spec fn file_count(items: Seq<ClipModel>) -> nat
    decreases items.len(),
{
    if items.len() == 0 {
        0
    } else {
        file_count(items.drop_last()) + if items.last().kind is Files {
            1nat
        } else {
            0nat
        }
    }
}

/// The thumbnail of the first image that kept one.
pub open spec fn first_thumbnail(items: Seq<ClipModel>) -> Option<Seq<char>>
    decreases items.len(),
{
    if items.len() == 0 {
        None
    } else {
        match first_thumbnail(items.drop_last()) {
            Some(t) => Some(t),
            None => match items.last().kind {
                KindModel::Image(image) => if image.thumbnail.len() > 0 {
                    Some(image.thumbnail)
                } else {
                    None
                },
                _ => None,
            },
        }
    }
}

/// The list label of each fragment, at most `max` characters.
pub open spec fn labels(items: Seq<ClipModel>, max: nat) -> Seq<Seq<char>> {
    items.map_values(|it: ClipModel| preview_of(it.kind, max))
}

/// The separator between fragment labels in a history row.
pub open spec fn label_separator() -> Seq<char> {
    " \u{b7} "@
}

/// One row of the history list.
#[derive(Clone, Debug)]
pub struct HistoryView {
    pub id: u64,
    pub ended_at_ms: u64,
    pub name: Option<String>,
    pub count: usize,
    /// The first line or so of the fragments, to recognise the session by.
    pub preview: String,
    /// How many of each kind, so a session of screenshots is obvious.
    pub images: usize,
    pub files: usize,
    /// Thumbnail of the first image in the session, if it kept one.
    pub thumbnail: Option<String>,
}

/// `v` is the row that describes `e`: its id, end, name and counts, the
/// thumbnail of its first image that kept one, and the labels of its
/// fragments (sixty characters each) joined by a middle dot and cut to 160
/// characters.
pub open spec fn describes(v: HistoryView, e: EntryModel) -> bool {
    &&& v.id == e.id
    &&& v.ended_at_ms == e.ended_at_ms
    &&& opt_view(v.name) == e.name
    &&& v.count == e.items.len()
    &&& v.images == image_count(e.items)
    &&& v.files == file_count(e.items)
    &&& opt_view(v.thumbnail) == first_thumbnail(e.items)
    &&& v.preview@ == truncated(join(labels(e.items, 60), label_separator()), 160)
}

impl HistoryView {
    fn of(entry: &HistoryEntry) -> (v: HistoryView)
        ensures
            describes(v, entry@),
    {
        let ghost items = entry@.items;
        let mut previews: Vec<Vec<char>> = Vec::new();
        let mut images: usize = 0;
        let mut files: usize = 0;
        let mut thumbnail: Option<String> = None;
        let mut i: usize = 0;
        while i < entry.items.len()
            invariant
                i <= entry.items@.len(),
                items == item_models(entry.items@),
                previews@.len() == i,
                forall|k: int|
                    0 <= k < i ==> #[trigger] previews@[k]@ == preview_of(items[k].kind, 60),
                images == image_count(items.take(i as int)),
                files == file_count(items.take(i as int)),
                images <= i,
                files <= i,
                opt_view(thumbnail) == first_thumbnail(items.take(i as int)),
            decreases entry.items.len() - i,
        {
            let it = &entry.items[i];
            let p = it.kind.preview(60);
            previews.push(chars_of(p.as_str()));
            match &it.kind {
                ClipKind::Image { image } => {
                    images = images + 1;
                    if thumbnail.is_none() && !image.thumbnail.as_str().is_empty() {
                        thumbnail = Some(image.thumbnail.clone());
                    }
                },
                ClipKind::Files { .. } => {
                    files = files + 1;
                },
                ClipKind::Text { .. } => {},
            }
            proof {
                let t = items.take(i + 1);
                assert(t.drop_last() =~= items.take(i as int));
                assert(t.last() == it@);
            }
            i = i + 1;
        }
        proof {
            assert(items.take(items.len() as int) =~= items);
        }
        let sep = chars_of(" \u{b7} ");
        let joined = join_chars(previews.as_slice(), sep.as_slice());
        let preview = string_of(truncate_chars(joined.as_slice(), 160).as_slice());
        let v = HistoryView {
            id: entry.id,
            ended_at_ms: entry.ended_at_ms,
            name: copy_opt_string(&entry.name),
            count: entry.items.len(),
            preview,
            images,
            files,
            thumbnail,
        };
        proof {
            let ps = previews@.map_values(|p: Vec<char>| p@);
            assert(ps =~= labels(items, 60));
            assert(v.preview@ == truncated(join(ps, label_separator()), 160));
        }
        v
    }
}

/// The words of a query, each in lower case.
pub open spec fn query_words(query: Seq<char>) -> Seq<Seq<char>> {
    words(query).map_values(|w: Seq<char>| lowercase(w))
}

/// The searchable texts of one fragment: its source, then its text, each
/// of its paths, or `image WxH`, all in lower case.
pub open spec fn item_fields(it: ClipModel) -> Seq<Seq<char>> {
    (match it.source {
        Some(src) => seq![lowercase(src)],
        None => seq![],
    }) + match it.kind {
        KindModel::Text(text) => seq![lowercase(text)],
        KindModel::Files(paths) => paths.map_values(|p: Seq<char>| lowercase(p)),
        KindModel::Image(image) => seq![
            "image "@ + decimal(image.width as nat) + "x"@ + decimal(image.height as nat),
        ],
    }
}

/// The searchable texts of a run of fragments, in order.
pub open spec fn items_fields(items: Seq<ClipModel>) -> Seq<Seq<char>>
    decreases items.len(),
{
    if items.len() == 0 {
        seq![]
    } else {
        items_fields(items.drop_last()) + item_fields(items.last())
    }
}

/// The searchable texts of an entry: its name (or nothing) in lower case,
/// then those of its fragments. Image bytes are never among them.
pub open spec fn entry_fields(e: EntryModel) -> Seq<Seq<char>> {
    seq![
        lowercase(
            match e.name {
                Some(n) => n,
                None => seq![],
            },
        ),
    ] + items_fields(e.items)
}

/// `word` occurs in one of the fields.
pub open spec fn found_in(fields: Seq<Seq<char>>, word: Seq<char>) -> bool {
    exists|f: int| 0 <= f < fields.len() && occurs_in(#[trigger] fields[f], word)
}

/// Every word occurs in some field.
pub open spec fn all_found(words: Seq<Seq<char>>, fields: Seq<Seq<char>>) -> bool {
    forall|w: int| 0 <= w < words.len() ==> found_in(fields, #[trigger] words[w])
}

/// The ids of the entries that every word matches, newest first.
pub open spec fn matching_ids(es: Seq<EntryModel>, ws: Seq<Seq<char>>) -> Seq<u64>
    decreases es.len(),
{
    if es.len() == 0 {
        seq![]
    } else {
        matching_ids(es.drop_first(), ws) + if all_found(ws, entry_fields(es[0])) {
            seq![es[0].id]
        } else {
            seq![]
        }
    }
}

/// The searchable texts of an entry, as character vectors.
fn fields_of(entry: &HistoryEntry) -> (r: Vec<Vec<char>>)
    ensures
        r@.map_values(|f: Vec<char>| f@) == entry_fields(entry@),
{
    let ghost items = entry@.items;
    let mut r: Vec<Vec<char>> = Vec::new();
    let name = match &entry.name {
        Some(n) => to_lower(n.as_str()),
        None => {
            let l = to_lower("");
            proof {
                reveal_strlit("");
                assert(""@ =~= Seq::<char>::empty());
            }
            l
        },
    };
    r.push(chars_of(name.as_str()));
    proof {
        assert(items.take(0) =~= Seq::<ClipModel>::empty());
        assert(name@ == lowercase(
            match entry@.name {
                Some(n) => n,
                None => seq![],
            },
        ));
        assert(r@.map_values(|f: Vec<char>| f@) =~= seq![
            lowercase(
                match entry@.name {
                    Some(n) => n,
                    None => seq![],
                },
            ),
        ] + items_fields(items.take(0)));
    }
    let mut i: usize = 0;
    while i < entry.items.len()
        invariant
            i <= entry.items@.len(),
            items == item_models(entry.items@),
            r@.map_values(|f: Vec<char>| f@) == seq![
                lowercase(
                    match entry@.name {
                        Some(n) => n,
                        None => seq![],
                    },
                ),
            ] + items_fields(items.take(i as int)),
        decreases entry.items.len() - i,
    {
        let it = &entry.items[i];
        let ghost before = r@.map_values(|f: Vec<char>| f@);
        let ghost mut added: Seq<Seq<char>> = seq![];
        match &it.source {
            Some(src) => {
                let l = to_lower(src.as_str());
                r.push(chars_of(l.as_str()));
                proof {
                    added = added.push(lowercase(src@));
                }
            },
            None => {},
        }
        proof {
            assert(r@.map_values(|f: Vec<char>| f@) =~= before + added);
        }
        match &it.kind {
            ClipKind::Text { text } => {
                let l = to_lower(text.as_str());
                r.push(chars_of(l.as_str()));
                proof {
                    added = added.push(lowercase(text@));
                }
            },
            ClipKind::Files { paths } => {
                let mut j: usize = 0;
                let ghost mid = added;
                while j < paths.len()
                    invariant
                        j <= paths@.len(),
                        r@.map_values(|f: Vec<char>| f@) == before + added,
                        added == mid + paths@.take(j as int).map_values(|p: String| lowercase(p@)),
                    decreases paths.len() - j,
                {
                    let l = to_lower(paths[j].as_str());
                    let ghost prev = r@;
                    r.push(chars_of(l.as_str()));
                    proof {
                        assert(paths@.take(j + 1).map_values(|p: String| lowercase(p@))
                            =~= paths@.take(j as int).map_values(|p: String| lowercase(p@)).push(
                            lowercase(paths@[j as int]@),
                        ));
                        added = added.push(lowercase(paths@[j as int]@));
                        assert(r@.map_values(|f: Vec<char>| f@) =~= prev.map_values(
                            |f: Vec<char>| f@,
                        ).push(lowercase(paths@[j as int]@)));
                    }
                    j = j + 1;
                }
                proof {
                    assert(paths@.take(paths@.len() as int) =~= paths@);
                }
            },
            ClipKind::Image { image } => {
                let mut out = chars_of("image ");
                let w = decimal_chars(image.width as u64);
                push_all(&mut out, w.as_slice());
                push_str_chars(&mut out, "x");
                let h = decimal_chars(image.height as u64);
                push_all(&mut out, h.as_slice());
                let ghost label = out@;
                r.push(out);
                proof {
                    reveal_strlit("image ");
                    reveal_strlit("x");
                    added = added.push(label);
                }
            },
        }
        proof {
            let t = items.take(i + 1);
            assert(t.drop_last() =~= items.take(i as int));
            assert(t.last() == it@);
            assert(added =~= item_fields(it@));
            assert(r@.map_values(|f: Vec<char>| f@) =~= before + added);
        }
        i = i + 1;
    }
    proof {
        assert(items.take(items.len() as int) =~= items);
    }
    r
}
/// Whether `word` occurs in one of the fields.
fn found_in_any(fields: &[Vec<char>], word: &[char]) -> (b: bool)
    ensures
        b == found_in(fields@.map_values(|f: Vec<char>| f@), word@),
{
    let ghost fs = fields@.map_values(|f: Vec<char>| f@);
    let mut i: usize = 0;
    while i < fields.len()
        invariant
            i <= fields@.len(),
            fs == fields@.map_values(|f: Vec<char>| f@),
            forall|k: int| 0 <= k < i ==> !occurs_in(#[trigger] fs[k], word@),
        decreases fields.len() - i,
    {
        if contains_chars(fields[i].as_slice(), word) {
            proof {
                assert(occurs_in(fs[i as int], word@));
            }
            return true;
        }
        i = i + 1;
    }
    false
}

/// Whether every word occurs in some field.
fn all_words_found(words: &[Vec<char>], fields: &[Vec<char>]) -> (b: bool)
    ensures
        b == all_found(
            words@.map_values(|w: Vec<char>| w@),
            fields@.map_values(|f: Vec<char>| f@),
        ),
{
    let ghost ws = words@.map_values(|w: Vec<char>| w@);
    let ghost fs = fields@.map_values(|f: Vec<char>| f@);
    let mut i: usize = 0;
    while i < words.len()
        invariant
            i <= words@.len(),
            ws == words@.map_values(|w: Vec<char>| w@),
            fs == fields@.map_values(|f: Vec<char>| f@),
            forall|k: int| 0 <= k < i ==> found_in(fs, #[trigger] ws[k]),
        decreases words.len() - i,
    {
        if !found_in_any(fields, words[i].as_slice()) {
            proof {
                assert(!found_in(fs, ws[i as int]));
            }
            return false;
        }
        i = i + 1;
    }
    true
}

impl History {
    /// A short description of each entry, newest first.
    pub fn views(&self) -> (r: Vec<HistoryView>)
        ensures
            r@.len() == self@.entries.len(),
            forall|k: int|
                0 <= k < r@.len() ==> describes(
                    #[trigger] r@[k],
                    self@.entries[self@.entries.len() - 1 - k],
                ),
    {
        let ghost es = self@.entries;
        let n = self.entries.len();
        let mut r: Vec<HistoryView> = Vec::new();
        let mut i: usize = n;
        while i > 0
            invariant
                i <= n == es.len(),
                es == entry_models(self.entries@),
                r@.len() == n - i,
                forall|k: int| 0 <= k < r@.len() ==> describes(#[trigger] r@[k], es[n - 1 - k]),
            decreases i,
        {
            i = i - 1;
            let v = HistoryView::of(&self.entries[i]);
            r.push(v);
        }
        r
    }

    /// The ids of the entries, newest first, in which every word of the
    /// query occurs, in lower case, in the name, a source, a text, a path or
    /// the `image WxH` description of an image. A query without words
    /// matches every entry. Image bytes are never searched.
    pub fn search(&self, query: &str) -> (r: Vec<u64>)
        ensures
            r@ == matching_ids(self@.entries, query_words(query@)),
    {
        let q = chars_of(query);
        let raw = split_words(q.as_slice());
        let ghost raw_views = raw@.map_values(|w: Vec<char>| w@);
        let mut words: Vec<Vec<char>> = Vec::new();
        let mut j: usize = 0;
        while j < raw.len()
            invariant
                j <= raw@.len(),
                raw_views == raw@.map_values(|w: Vec<char>| w@),
                words@.map_values(|w: Vec<char>| w@) == raw_views.take(j as int).map_values(
                    |w: Seq<char>| lowercase(w),
                ),
            decreases raw.len() - j,
        {
            let l = to_lower(string_of(raw[j].as_slice()).as_str());
            let ghost prev = words@;
            words.push(chars_of(l.as_str()));
            proof {
                assert(words@.map_values(|w: Vec<char>| w@) =~= prev.map_values(|w: Vec<char>| w@).push(
                    lowercase(raw_views[j as int]),
                ));
                assert(raw_views.take(j + 1).map_values(|w: Seq<char>| lowercase(w))
                    =~= raw_views.take(j as int).map_values(|w: Seq<char>| lowercase(w)).push(
                    lowercase(raw_views[j as int]),
                ));
            }
            j = j + 1;
        }
        proof {
            assert(raw_views.take(raw_views.len() as int) =~= raw_views);
        }
        let ghost ws = query_words(query@);
        let ghost es = self@.entries;
        let n = self.entries.len();
        let mut r: Vec<u64> = Vec::new();
        let mut i: usize = n;
        proof {
            assert(es.skip(n as int) =~= Seq::<EntryModel>::empty());
        }
        while i > 0
            invariant
                i <= n == es.len(),
                es == entry_models(self.entries@),
                words@.map_values(|w: Vec<char>| w@) == ws,
                r@ == matching_ids(es.skip(i as int), ws),
            decreases i,
        {
            i = i - 1;
            let e = &self.entries[i];
            let fields = fields_of(e);
            let ghost before = r@;
            if all_words_found(words.as_slice(), fields.as_slice()) {
                r.push(e.id);
            }
            proof {
                let t = es.skip(i as int);
                assert(t.drop_first() =~= es.skip(i + 1));
                assert(t[0] == e@);
                assert(r@ =~= matching_ids(t, ws));
            }
        }
        proof {
            assert(es.skip(0) =~= es);
        }
        r
    }
}

/// Which sessions a paste should use when there is no live session to flush:
/// the ticked ones that still exist, oldest first, or else the newest one.
pub open spec fn replay_spec(m: HistoryModel, ticked: Seq<u64>) -> Seq<u64> {
    if selected_ids(m.entries, ticked).len() > 0 {
        selected_ids(m.entries, ticked)
    } else if m.entries.len() > 0 {
        seq![m.entries.last().id]
    } else {
        seq![]
    }
}

/// Which sessions a paste should use when there is no live session to flush.
///
/// Ticked sessions win: ticking is an explicit choice. With nothing ticked,
/// the session that just happened.
pub fn replay_target(history: &History, ticked: &[u64]) -> (r: Vec<u64>)
    ensures
        r@ == replay_spec(history@, ticked@),
{
    let live = history.retain_existing(ticked);
    if live.len() > 0 {
        return live;
    }
    match history.latest() {
        Some(e) => {
            let mut r: Vec<u64> = Vec::new();
            r.push(e.id);
            proof {
                assert(r@ =~= seq![history@.entries.last().id]);
            }
            r
        },
        None => Vec::new(),
    }
}

/// Archive a session as ending now.
pub fn record_now(history: &mut History, items: Vec<ClipItem>, name: Option<String>) -> (r: Option<
    u64,
>)
    requires
        old(history)@.next_id < u64::MAX,
    ensures
        items@.len() == 0 ==> r is None && final(history)@ == old(history)@,
        items@.len() > 0 ==> r == Some(old(history)@.next_id) && exists|at: u64|
            final(history)@ == archived(
                old(history)@,
                #[trigger] new_entry(old(history)@.next_id, at, opt_view(name), item_models(items@)),
            ),
{
    history.record(items, name, now_ms())
}

/// The ticks of a selection matter, not their order or repetition: two
/// selections naming the same ids pick the same sessions and combine them
/// into the same block, oldest session first.
pub proof fn law_selection_order_irrelevant(es: Seq<EntryModel>, a: Seq<u64>, b: Seq<u64>)
    requires
        forall|x: u64| a.contains(x) == b.contains(x),
    ensures
        selected_ids(es, a) == selected_ids(es, b),
        combined_items(es, a) == combined_items(es, b),
    decreases es.len(),
{
    if es.len() > 0 {
        law_selection_order_irrelevant(es.drop_last(), a, b);
        assert(a.contains(es.last().id) == b.contains(es.last().id));
    }
}

/// The id the archive hands out next belongs to no entry it holds, so an id
/// is never reused, even after the cap has dropped old entries.
pub proof fn law_next_id_is_fresh(m: HistoryModel)
    requires
        ids_issued(m),
    ensures
        !has_entry(m.entries, m.next_id),
{
    if has_entry(m.entries, m.next_id) {
        let i = choose|i: int| 0 <= i < m.entries.len() && (#[trigger] m.entries[i]).id == m.next_id;
        assert(m.entries[i].id < m.next_id);
    }
}

/// After a removal no entry has that id, and every other entry is still
/// there.
pub proof fn law_removed_entry_is_gone(es: Seq<EntryModel>, id: u64, other: u64)
    requires
        other != id,
    ensures
        !has_entry(without_entry(es, id), id),
        has_entry(without_entry(es, id), other) == has_entry(es, other),
    decreases es.len(),
{
    if es.len() > 0 {
        let init = es.drop_last();
        law_removed_entry_is_gone(init, id, other);
        let w = without_entry(es, id);
        let wi = without_entry(init, id);
        let tail = if es.last().id != id {
            seq![es.last()]
        } else {
            seq![]
        };
        assert(w == wi + tail);
        if has_entry(w, id) {
            let i = choose|i: int| 0 <= i < w.len() && (#[trigger] w[i]).id == id;
            if i < wi.len() {
                assert(w[i] == wi[i]);
            } else {
                assert(w[i] == tail[i - wi.len()]);
            }
        }
        if has_entry(w, other) {
            let i = choose|i: int| 0 <= i < w.len() && (#[trigger] w[i]).id == other;
            if i < wi.len() {
                assert(w[i] == wi[i]);
                let j = choose|j: int| 0 <= j < init.len() && (#[trigger] init[j]).id == other;
                assert(es[j] == init[j]);
            } else {
                assert(w[i] == tail[i - wi.len()]);
                assert(es[es.len() - 1].id == other);
            }
        }
        if has_entry(es, other) {
            let j = choose|j: int| 0 <= j < es.len() && (#[trigger] es[j]).id == other;
            if j < init.len() {
                assert(init[j] == es[j]);
                let i = choose|i: int| 0 <= i < wi.len() && (#[trigger] wi[i]).id == other;
                assert(w[i] == wi[i]);
            } else {
                assert(w[wi.len() as int] == es.last());
            }
        }
    }
}

proof fn lemma_selected_exist(es: Seq<EntryModel>, ids: Seq<u64>)
    ensures
        forall|i: int|
            0 <= i < selected_ids(es, ids).len() ==> has_entry(es, #[trigger] selected_ids(es, ids)[i]),
    decreases es.len(),
{
    if es.len() > 0 {
        let init = es.drop_last();
        lemma_selected_exist(init, ids);
        let s = selected_ids(es, ids);
        let si = selected_ids(init, ids);
        assert forall|i: int| 0 <= i < s.len() implies has_entry(es, #[trigger] s[i]) by {
            if i < si.len() {
                assert(s[i] == si[i]);
                assert(has_entry(init, si[i]));
                let j = choose|j: int| 0 <= j < init.len() && (#[trigger] init[j]).id == si[i];
                assert(es[j] == init[j]);
            } else {
                assert(s[i] == es.last().id);
                assert(es[es.len() - 1] == es.last());
            }
        }
    }
}

/// A paste with nothing live always has something to paste while the
/// history holds any session, and only ever names sessions it holds.
pub proof fn law_replay_targets_exist(m: HistoryModel, ticked: Seq<u64>)
    ensures
        (replay_spec(m, ticked).len() > 0) == (m.entries.len() > 0),
        forall|i: int|
            0 <= i < replay_spec(m, ticked).len() ==> has_entry(
                m.entries,
                #[trigger] replay_spec(m, ticked)[i],
            ),
{
    lemma_selected_exist(m.entries, ticked);
    if selected_ids(m.entries, ticked).len() == 0 && m.entries.len() > 0 {
        assert(m.entries[m.entries.len() - 1] == m.entries.last());
    }
}

/// No two entries share an id.
pub open spec fn unique_ids(es: Seq<EntryModel>) -> bool {
    forall|a: int, b: int|
        0 <= a < b < es.len() ==> (#[trigger] es[a]).id != (#[trigger] es[b]).id
}

/// Where no two entries share an id, removing one that is there shortens
/// the archive by exactly one, and removing one that is not there changes
/// nothing.
pub proof fn law_remove_shortens_by_one(es: Seq<EntryModel>, id: u64)
    requires
        unique_ids(es),
    ensures
        has_entry(es, id) ==> without_entry(es, id).len() == es.len() - 1,
        !has_entry(es, id) ==> without_entry(es, id) == es,
    decreases es.len(),
{
    if es.len() > 0 {
        let n = es.len() as int;
        let init = es.drop_last();
        assert forall|a: int, b: int| 0 <= a < b < init.len() implies (#[trigger] init[a]).id
            != (#[trigger] init[b]).id by {
            assert(init[a] == es[a] && init[b] == es[b]);
        }
        law_remove_shortens_by_one(init, id);
        if has_entry(init, id) {
            let k = choose|k: int| 0 <= k < init.len() && (#[trigger] init[k]).id == id;
            assert(es[k] == init[k]);
            assert(es[k].id != es[n - 1].id);
            assert(has_entry(es, id));
        } else if es.last().id == id {
            assert(es[n - 1].id == id);
            assert(has_entry(es, id));
        } else {
            assert(!has_entry(es, id)) by {
                if has_entry(es, id) {
                    let k = choose|k: int| 0 <= k < es.len() && (#[trigger] es[k]).id == id;
                    assert(k < n - 1);
                    assert(init[k] == es[k]);
                }
            }
            assert(init + seq![es.last()] =~= es);
        }
    } else {
        assert(without_entry(es, id) =~= es);
    }
}

/// Archiving under the next id keeps the ids of an archive unique, as long as
/// every id in it was handed out before.
pub proof fn law_archiving_keeps_ids_unique(m: HistoryModel, e: EntryModel)
    requires
        ids_issued(m),
        unique_ids(m.entries),
        e.id == m.next_id,
    ensures
        unique_ids(archived(m, e).entries),
{
    let s = m.entries.push(e);
    assert forall|a: int, b: int| 0 <= a < b < s.len() implies (#[trigger] s[a]).id
        != (#[trigger] s[b]).id by {
        if b == s.len() - 1 {
            assert(s[a] == m.entries[a]);
            assert(m.entries[a].id < m.next_id);
        } else {
            assert(s[a] == m.entries[a] && s[b] == m.entries[b]);
        }
    }
    let t = trimmed(s, m.limit);
    if s.len() > m.limit {
        let d = s.len() - m.limit;
        assert forall|a: int, b: int| 0 <= a < b < t.len() implies (#[trigger] t[a]).id
            != (#[trigger] t[b]).id by {
            assert(t[a] == s[a + d] && t[b] == s[b + d]);
        }
    }
}

} // verus!

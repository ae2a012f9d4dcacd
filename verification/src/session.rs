//! The session: an append-only clipboard with an explicit begin and commit.

use vstd::prelude::*;

use crate::clock::{now_ms, ClockModel, ClockReading};
use crate::config::CapturePolicy;
use crate::item::{
    blank, digest_of, preview_of, kind_label, opt_view, weight_fits, weight_of, ClipItem,
    ClipKind, ClipModel, KindModel,
};
use crate::template::{
    clockless, law_clockless_render_is_stable, models, observed, render, rendered, Template,
    TemplateModel, WorldModel,
};
use crate::text::{chars_of, is_ws, trim, trim_chars};

verus! {

/// What happened to a capture the watcher handed over. Every rejection is
/// named so the interface can say why nothing was added.
#[derive(Clone, Debug, PartialEq, Eq)]
pub enum CaptureOutcome {
    /// Added to the stack.
    Appended { id: u64, count: usize },
    /// Identical content already in this session, and dedupe is on.
    Duplicate,
    /// Empty or whitespace-only.
    Blank,
    /// This kind of content is switched off in the capture policy.
    Filtered { kind: String },
    /// The session is at `max_items`.
    Full { limit: usize },
    /// No session is open.
    Inactive,
}

/// A capture outcome, as values.
pub enum OutcomeModel {
    Appended { id: u64, count: usize },
    Duplicate,
    Blank,
    Filtered(Seq<char>),
    Full(usize),
    Inactive,
}

impl View for CaptureOutcome {
    type V = OutcomeModel;

    open spec fn view(&self) -> OutcomeModel {
        match self {
            CaptureOutcome::Appended { id, count } => OutcomeModel::Appended { id: *id, count: *count },
            CaptureOutcome::Duplicate => OutcomeModel::Duplicate,
            CaptureOutcome::Blank => OutcomeModel::Blank,
            CaptureOutcome::Filtered { kind } => OutcomeModel::Filtered(kind@),
            CaptureOutcome::Full { limit } => OutcomeModel::Full(*limit),
            CaptureOutcome::Inactive => OutcomeModel::Inactive,
        }
    }
}

impl CaptureOutcome {
    /// Whether the capture was added.
    pub fn accepted(&self) -> (b: bool)
        ensures
            b == (self is Appended),
    {
        match self {
            CaptureOutcome::Appended { .. } => true,
            _ => false,
        }
    }
}

#[derive(Clone, Copy, Debug, PartialEq, Eq)]
pub enum MoveDirection {
    Up,
    Down,
}

/// Why an edit could not be applied.
#[derive(Clone, Copy, Debug, PartialEq, Eq)]
pub enum EditError {
    NoSuchItem,
    NotText,
}

impl EditError {
    /// What to tell the user.
    pub fn message(&self) -> (r: &'static str)
        ensures
            self is NoSuchItem ==> r@ == "that fragment is no longer in the session"@,
            self is NotText ==> r@ == "only text fragments can be edited"@,
    {
        match self {
            EditError::NoSuchItem => "that fragment is no longer in the session",
            EditError::NotText => "only text fragments can be edited",
        }
    }
}

/// A live capture session. Holds items in capture order.
#[derive(Clone, Debug)]
pub struct Session {
    items: Vec<ClipItem>,
    next_id: u64,
    started_at_ms: u64,
    /// What the user calls this session, if anything.
    name: Option<String>,
    /// Snapshotted when the session opened, so changing settings mid-session
    /// cannot retroactively change what was already accepted.
    policy: CapturePolicy,
}

/// A session, as values.
#[verifier::ext_equal]
pub struct SessionModel {
    pub items: Seq<ClipModel>,
    pub next_id: u64,
    pub started_at_ms: u64,
    pub name: Option<Seq<char>>,
    pub policy: CapturePolicy,
}

/// The fragments of a vector, as values.
pub open spec fn item_models(v: Seq<ClipItem>) -> Seq<ClipModel> {
    v.map_values(|i: ClipItem| i@)
}

impl View for Session {
    type V = SessionModel;

    closed spec fn view(&self) -> SessionModel {
        SessionModel {
            items: item_models(self.items@),
            next_id: self.next_id,
            started_at_ms: self.started_at_ms,
            name: opt_view(self.name),
            policy: self.policy,
        }
    }
}

/// Every id in the stack was handed out before `next_id`.
pub open spec fn ids_below(items: Seq<ClipModel>, next_id: u64) -> bool {
    forall|i: int| 0 <= i < items.len() ==> (#[trigger] items[i]).id < next_id
}

/// No two fragments share an id.
pub open spec fn ids_unique(items: Seq<ClipModel>) -> bool {
    forall|i: int, j: int|
        0 <= i < items.len() && 0 <= j < items.len() && i != j ==> (#[trigger] items[i]).id
            != (#[trigger] items[j]).id
}

/// The stack is at or below the policy's cap.
pub open spec fn within_limit(n: nat, p: CapturePolicy) -> bool {
    p.max_items > 0 ==> n <= p.max_items
}

/// What every session keeps true: ids are unique and below the next one to
/// be handed out, and the stack respects the cap.
pub open spec fn session_wf(m: SessionModel) -> bool {
    &&& ids_below(m.items, m.next_id)
    &&& ids_unique(m.items)
    &&& within_limit(m.items.len(), m.policy)
}

/// The policy lets this kind of content in.
pub open spec fn allowed(k: KindModel, p: CapturePolicy) -> bool {
    match k {
        KindModel::Text(..) => true,
        KindModel::Files(..) => p.capture_files,
        KindModel::Image(..) => p.capture_images,
    }
}

/// A stack of `n` is at the cap.
pub open spec fn is_full(n: nat, p: CapturePolicy) -> bool {
    p.max_items > 0 && n >= p.max_items
}

/// Some fragment has this content hash.
pub open spec fn holds_digest(items: Seq<ClipModel>, d: u64) -> bool {
    exists|i: int| 0 <= i < items.len() && digest_of((#[trigger] items[i]).kind) == d
}

/// Some fragment has this id.
pub open spec fn has_id(items: Seq<ClipModel>, id: u64) -> bool {
    exists|p: int| 0 <= p < items.len() && (#[trigger] items[p]).id == id
}

/// Where the fragment with this id is.
pub open spec fn pos_of(items: Seq<ClipModel>, id: u64) -> int {
    choose|p: int| 0 <= p < items.len() && (#[trigger] items[p]).id == id
}

/// The session with one more fragment at the end, under the next id.
pub open spec fn append_item(
    m: SessionModel,
    k: KindModel,
    source: Option<Seq<char>>,
    at: u64,
    edited: bool,
) -> SessionModel {
    SessionModel {
        items: m.items.push(
            ClipModel {
                id: m.next_id,
                kind: k,
                captured_at_ms: at,
                source,
                included: true,
                edited,
            },
        ),
        next_id: (m.next_id + 1) as u64,
        ..m
    }
}

/// What a capture does: refused by kind, as blank, as full, or as a repeat
/// (in that order), or appended under the next id.
pub open spec fn capture_spec(m: SessionModel, k: KindModel, source: Option<Seq<char>>, at: u64) -> (
    OutcomeModel,
    SessionModel,
) {
    if !allowed(k, m.policy) {
        (OutcomeModel::Filtered(kind_label(k)), m)
    } else if blank(k) {
        (OutcomeModel::Blank, m)
    } else if is_full(m.items.len(), m.policy) {
        (OutcomeModel::Full(m.policy.max_items), m)
    } else if m.policy.dedupe && holds_digest(m.items, digest_of(k)) {
        (OutcomeModel::Duplicate, m)
    } else {
        (
            OutcomeModel::Appended { id: m.next_id, count: (m.items.len() + 1) as usize },
            append_item(m, k, source, at, false),
        )
    }
}

/// What adding a typed line does: refused as blank or as full, or appended
/// as an edited fragment. Repeats are allowed.
pub open spec fn add_text_spec(m: SessionModel, text: Seq<char>, at: u64) -> (
    OutcomeModel,
    SessionModel,
) {
    if trim(text).len() == 0 {
        (OutcomeModel::Blank, m)
    } else if is_full(m.items.len(), m.policy) {
        (OutcomeModel::Full(m.policy.max_items), m)
    } else {
        (
            OutcomeModel::Appended { id: m.next_id, count: (m.items.len() + 1) as usize },
            append_item(m, KindModel::Text(text), None, at, true),
        )
    }
}

/// The fragments that go into the block, in order.
pub open spec fn only_included(items: Seq<ClipModel>) -> Seq<ClipModel>
    decreases items.len(),
{
    if items.len() == 0 {
        seq![]
    } else {
        only_included(items.drop_last()) + if items.last().included {
            seq![items.last()]
        } else {
            seq![]
        }
    }
}

/// A name as the session keeps it: trimmed, and none when blank.
pub open spec fn clean_name(name: Seq<char>) -> Option<Seq<char>> {
    if trim(name).len() == 0 {
        None
    } else {
        Some(trim(name))
    }
}

/// `m` with a different list of fragments.
pub open spec fn with_items(m: SessionModel, items: Seq<ClipModel>) -> SessionModel {
    SessionModel { items, ..m }
}

/// One fragment ticked or unticked.
pub open spec fn with_included(it: ClipModel, included: bool) -> ClipModel {
    ClipModel { included, ..it }
}

/// What replacing the text of fragment `id` does: refused when there is no
/// such fragment or it is not text, removed when the new text is blank,
/// otherwise rewritten, marked edited when the text changed.
pub open spec fn edit_spec(m: SessionModel, id: u64, text: Seq<char>) -> (
    Result<bool, EditError>,
    SessionModel,
) {
    let p = pos_of(m.items, id);
    if !has_id(m.items, id) {
        (Err(EditError::NoSuchItem), m)
    } else if !(m.items[p].kind is Text) {
        (Err(EditError::NotText), m)
    } else if trim(text).len() == 0 {
        (Ok(false), with_items(m, m.items.remove(p)))
    } else {
        (
            Ok(true),
            with_items(
                m,
                m.items.update(
                    p,
                    ClipModel {
                        kind: KindModel::Text(text),
                        edited: m.items[p].edited || m.items[p].kind != KindModel::Text(text),
                        ..m.items[p]
                    },
                ),
            ),
        )
    }
}

/// The neighbour a fragment at `p` swaps with, when there is one.
pub open spec fn move_target(p: int, n: int, dir: MoveDirection) -> Option<int> {
    match dir {
        MoveDirection::Up => if p > 0 {
            Some(p - 1)
        } else {
            None
        },
        MoveDirection::Down => if p + 1 < n {
            Some(p + 1)
        } else {
            None
        },
    }
}

/// Where a drop at `index` lands in a stack of `n`: past the end means the
/// end.
pub open spec fn drop_target(index: int, n: int) -> int {
    if index < n - 1 {
        index
    } else {
        n - 1
    }
}

pub(crate) proof fn lemma_pos_of(items: Seq<ClipModel>, id: u64, p: int)
    requires
        ids_unique(items),
        0 <= p < items.len(),
        items[p].id == id,
    ensures
        has_id(items, id),
        pos_of(items, id) == p,
{
    assert(has_id(items, id));
    let q = pos_of(items, id);
    assert(items[q].id == id);
}

impl Session {
    /// The session's invariant.
    pub open spec fn wf(&self) -> bool {
        session_wf(self@)
    }

    /// There is an id left to hand out.
    pub open spec fn id_room(&self) -> bool {
        self@.next_id < u64::MAX
    }

    /// Whether there is still an id to hand out.
    pub fn ids_left(&self) -> (b: bool)
        ensures
            b == self.id_room(),
    {
        self.next_id < u64::MAX
    }

    /// A fresh, empty, unnamed session.
    pub fn start(policy: CapturePolicy, started_at_ms: u64) -> (s: Self)
        ensures
            s.wf(),
            s@ == (SessionModel {
                items: seq![],
                next_id: 1,
                started_at_ms,
                name: None,
                policy,
            }),
    {
        let s = Session { items: Vec::new(), next_id: 1, started_at_ms, name: None, policy };
        proof {
            assert(s@ =~= (SessionModel {
                items: seq![],
                next_id: 1,
                started_at_ms,
                name: None,
                policy,
            }));
        }
        s
    }

    /// The fragments, in stack order.
    pub fn items(&self) -> (r: &[ClipItem])
        ensures
            item_models(r@) == self@.items,
    {
        self.items.as_slice()
    }

    /// What the user called this session.
    pub fn name(&self) -> (r: Option<&str>)
        ensures
            match r {
                Some(n) => self@.name == Some(n@),
                None => self@.name is None,
            },
    {
        match &self.name {
            Some(n) => Some(n.as_str()),
            None => None,
        }
    }

    /// Name the session, or clear the name by passing something blank.
    pub fn set_name(&mut self, name: &str)
        requires
            old(self).wf(),
        ensures
            final(self).wf(),
            final(self)@ == (SessionModel { name: clean_name(name@), ..old(self)@ }),
    {
        let v = chars_of(name);
        let t = trim_chars(v.as_slice());
        if t.len() == 0 {
            self.name = None;
        } else {
            self.name = Some(crate::text::string_of(t.as_slice()));
        }
        proof {
            assert(self@ =~= (SessionModel { name: clean_name(name@), ..old(self)@ }));
        }
    }

    pub fn len(&self) -> (n: usize)
        ensures
            n == self@.items.len(),
    {
        self.items.len()
    }

    pub fn is_empty(&self) -> (b: bool)
        ensures
            b == (self@.items.len() == 0),
    {
        self.items.len() == 0
    }

    pub fn started_at_ms(&self) -> (t: u64)
        ensures
            t == self@.started_at_ms,
    {
        self.started_at_ms
    }

    pub fn policy(&self) -> (p: &CapturePolicy)
        ensures
            *p == self@.policy,
    {
        &self.policy
    }

    /// Where the fragment with this id is.
    fn position(&self, id: u64) -> (r: Option<usize>)
        requires
            self.wf(),
        ensures
            match r {
                Some(p) => has_id(self@.items, id) && p == pos_of(self@.items, id) && p
                    < self@.items.len(),
                None => !has_id(self@.items, id),
            },
    {
        let mut i: usize = 0;
        while i < self.items.len()
            invariant
                i <= self.items@.len(),
                self.wf(),
                forall|k: int| 0 <= k < i ==> (#[trigger] self.items@[k]).id != id,
            decreases self.items.len() - i,
        {
            if self.items[i].id == id {
                proof {
                    assert(self@.items[i as int] == self.items@[i as int]@);
                    lemma_pos_of(self@.items, id, i as int);
                }
                return Some(i);
            }
            i = i + 1;
        }
        proof {
            assert forall|p: int| 0 <= p < self@.items.len() implies (#[trigger] self@.items[p]).id
                != id by {
                assert(self@.items[p] == self.items@[p]@);
            }
        }
        None
    }

    /// Offer a clipboard value to the session.
    pub fn capture(&mut self, kind: ClipKind, source: Option<String>, captured_at_ms: u64) -> (r:
        CaptureOutcome)
        requires
            old(self).wf(),
            old(self).id_room(),
        ensures
            final(self).wf(),
            (r@, final(self)@) == capture_spec(
                old(self)@,
                kind@,
                opt_view(source),
                captured_at_ms,
            ),
    {
        let accepted = match &kind {
            ClipKind::Text { .. } => true,
            ClipKind::Files { .. } => self.policy.capture_files,
            ClipKind::Image { .. } => self.policy.capture_images,
        };
        if !accepted {
            return CaptureOutcome::Filtered { kind: kind.kind_name().to_owned() };
        }
        if kind.is_blank() {
            return CaptureOutcome::Blank;
        }
        if self.policy.max_items > 0 && self.items.len() >= self.policy.max_items {
            return CaptureOutcome::Full { limit: self.policy.max_items };
        }
        if self.policy.dedupe {
            let d = kind.digest();
            let mut i: usize = 0;
            while i < self.items.len()
                invariant
                    i <= self.items@.len(),
                    self.wf(),
                    self@ == old(self)@,
                    allowed(kind@, self@.policy),
                    !blank(kind@),
                    !is_full(self@.items.len(), self@.policy),
                    self@.policy.dedupe,
                    d == digest_of(kind@),
                    forall|k: int|
                        0 <= k < i ==> digest_of((#[trigger] self.items@[k])@.kind) != d,
                decreases self.items.len() - i,
            {
                if self.items[i].kind.digest() == d {
                    proof {
                        assert(self@.items[i as int] == self.items@[i as int]@);
                    }
                    return CaptureOutcome::Duplicate;
                }
                i = i + 1;
            }
            proof {
                assert forall|k: int| 0 <= k < self@.items.len() implies digest_of(
                    (#[trigger] self@.items[k]).kind,
                ) != d by {
                    assert(self@.items[k] == self.items@[k]@);
                }
            }
        }
        self.push_new(kind, source, captured_at_ms, false)
    }

    /// Append a fragment under the next id.
    fn push_new(&mut self, kind: ClipKind, source: Option<String>, at: u64, edited: bool) -> (r:
        CaptureOutcome)
        requires
            old(self).wf(),
            old(self).id_room(),
            !is_full(old(self)@.items.len(), old(self)@.policy),
        ensures
            final(self).wf(),
            r@ == (OutcomeModel::Appended {
                id: old(self)@.next_id,
                count: (old(self)@.items.len() + 1) as usize,
            }),
            final(self)@ == append_item(old(self)@, kind@, opt_view(source), at, edited),
    {
        let id: u64 = self.next_id;
        self.next_id = self.next_id + 1;
        let mut item = ClipItem::new(id, kind, at, source);
        item.edited = edited;
        self.items.push(item);
        proof {
            assert(self@.items =~= old(self)@.items.push(self@.items.last()));
            assert(self@ =~= append_item(old(self)@, kind@, opt_view(source), at, edited));
        }
        CaptureOutcome::Appended { id, count: self.items.len() }
    }

    /// Drop one item the user grabbed by mistake.
    pub fn remove(&mut self, id: u64) -> (r: bool)
        requires
            old(self).wf(),
        ensures
            final(self).wf(),
            r == has_id(old(self)@.items, id),
            r ==> final(self)@ == with_items(
                old(self)@,
                old(self)@.items.remove(pos_of(old(self)@.items, id)),
            ),
            !r ==> final(self)@ == old(self)@,
    {
        match self.position(id) {
            Some(p) => {
                let ghost m = self@;
                self.items.remove(p);
                proof {
                    assert(self@.items =~= m.items.remove(p as int));
                    assert(self@ =~= with_items(m, m.items.remove(p as int)));
                    lemma_remove_wf(m, p as int);
                }
                true
            },
            None => false,
        }
    }

    /// Drop the most recent capture.
    pub fn undo_last(&mut self) -> (r: Option<ClipItem>)
        requires
            old(self).wf(),
        ensures
            final(self).wf(),
            old(self)@.items.len() == 0 ==> r is None && final(self)@ == old(self)@,
            old(self)@.items.len() > 0 ==> (r matches Some(it) && it@ == old(self)@.items.last()
                && final(self)@ == with_items(old(self)@, old(self)@.items.drop_last())),
    {
        let ghost m = self@;
        let r = self.items.pop();
        proof {
            if m.items.len() > 0 {
                assert(self@.items =~= m.items.drop_last());
                assert(self@ =~= with_items(m, m.items.drop_last()));
                lemma_remove_wf(m, m.items.len() - 1);
                assert(m.items.remove(m.items.len() - 1) =~= m.items.drop_last());
            } else {
                assert(self@ =~= m);
            }
        }
        r
    }

    /// Swap a fragment with its neighbour. The first item cannot go up and
    /// the last cannot go down; those moves, and unknown ids, change nothing.
    pub fn move_item(&mut self, id: u64, dir: MoveDirection) -> (r: bool)
        requires
            old(self).wf(),
        ensures
            final(self).wf(),
            ({
                let m = old(self)@;
                let p = pos_of(m.items, id);
                &&& r == (has_id(m.items, id) && move_target(p, m.items.len() as int, dir) is Some)
                &&& r ==> {
                    let q = move_target(p, m.items.len() as int, dir)->0;
                    final(self)@ == with_items(m, m.items.update(p, m.items[q]).update(q, m.items[p]))
                }
                &&& !r ==> final(self)@ == m
            }),
    {
        let Some(pos) = self.position(id) else {
            return false;
        };
        let target = match dir {
            MoveDirection::Up => {
                if pos > 0 {
                    pos - 1
                } else {
                    return false;
                }
            },
            MoveDirection::Down => {
                if pos < self.items.len() - 1 {
                    pos + 1
                } else {
                    return false;
                }
            },
        };
        let ghost m = self@;
        let item = self.items.remove(pos);
        self.items.insert(target, item);
        proof {
            let p = pos as int;
            let q = target as int;
            let want = m.items.update(p, m.items[q]).update(q, m.items[p]);
            assert(self@.items =~= m.items.remove(p).insert(q, m.items[p]));
            assert(self@.items =~= want);
            assert(self@ =~= with_items(m, want));
            lemma_swap_wf(m, p, q);
        }
        true
    }

    /// Move a fragment to an absolute position, as dragging a row does. A
    /// drop past the end means the end.
    pub fn move_to(&mut self, id: u64, index: usize) -> (r: bool)
        requires
            old(self).wf(),
        ensures
            final(self).wf(),
            ({
                let m = old(self)@;
                let from = pos_of(m.items, id);
                let to = drop_target(index as int, m.items.len() as int);
                &&& r == (has_id(m.items, id) && from != to)
                &&& r ==> final(self)@ == with_items(
                    m,
                    m.items.remove(from).insert(to, m.items[from]),
                )
                &&& !r ==> final(self)@ == m
            }),
    {
        let Some(from) = self.position(id) else {
            return false;
        };
        let last: usize = self.items.len() - 1;
        let to: usize = if index < last {
            index
        } else {
            last
        };
        if from == to {
            return false;
        }
        let ghost m = self@;
        let item = self.items.remove(from);
        self.items.insert(to, item);
        proof {
            let want = m.items.remove(from as int).insert(to as int, m.items[from as int]);
            assert(self@.items =~= want);
            assert(self@ =~= with_items(m, want));
            lemma_move_wf(m, from as int, to as int);
        }
        true
    }

    /// Empty the stack.
    pub fn clear(&mut self)
        requires
            old(self).wf(),
        ensures
            final(self).wf(),
            final(self)@ == with_items(old(self)@, seq![]),
    {
        self.items.clear();
        proof {
            assert(self@ =~= with_items(old(self)@, seq![]));
        }
    }

    /// Include or exclude one fragment. Excluded fragments stay in the list.
    pub fn set_included(&mut self, id: u64, included: bool) -> (r: bool)
        requires
            old(self).wf(),
        ensures
            final(self).wf(),
            final(self)@.items.len() == old(self)@.items.len(),
            r == has_id(old(self)@.items, id),
            r ==> {
                let m = old(self)@;
                let p = pos_of(m.items, id);
                final(self)@ == with_items(m, m.items.update(p, with_included(m.items[p], included)))
            },
            !r ==> final(self)@ == old(self)@,
    {
        match self.position(id) {
            Some(p) => {
                let ghost m = self@;
                let mut item = self.items.remove(p);
                item.included = included;
                self.items.insert(p, item);
                proof {
                    let want = m.items.update(p as int, with_included(m.items[p as int], included));
                    assert(self@.items =~= want);
                    assert(self@ =~= with_items(m, want));
                    lemma_relabel_wf(m, want);
                }
                true
            },
            None => false,
        }
    }

    /// Include or exclude everything at once.
    pub fn set_all_included(&mut self, included: bool)
        requires
            old(self).wf(),
        ensures
            final(self).wf(),
            final(self)@ == with_items(
                old(self)@,
                old(self)@.items.map_values(|it: ClipModel| with_included(it, included)),
            ),
    {
        let ghost m = self@;
        let ghost want = m.items.map_values(|it: ClipModel| with_included(it, included));
        let mut i: usize = 0;
        while i < self.items.len()
            invariant
                i <= self.items@.len() == m.items.len(),
                want == m.items.map_values(|it: ClipModel| with_included(it, included)),
                self.next_id == m.next_id,
                self.started_at_ms == m.started_at_ms,
                opt_view(self.name) == m.name,
                self.policy == m.policy,
                forall|k: int| 0 <= k < i ==> (#[trigger] self.items@[k])@ == want[k],
                forall|k: int| i <= k < self.items@.len() ==> (#[trigger] self.items@[k])@ == m.items[k],
            decreases self.items.len() - i,
        {
            let mut item = self.items.remove(i);
            item.included = included;
            self.items.insert(i, item);
            i = i + 1;
        }
        proof {
            assert(self@.items =~= want);
            assert(self@ =~= with_items(m, want));
            lemma_relabel_wf(m, want);
        }
    }

    /// Replace the text of one fragment. Editing to nothing removes the
    /// fragment; only text can be edited.
    pub fn edit_text(&mut self, id: u64, text: String) -> (r: Result<bool, EditError>)
        requires
            old(self).wf(),
        ensures
            final(self).wf(),
            (r, final(self)@) == edit_spec(old(self)@, id, text@),
    {
        let Some(p) = self.position(id) else {
            return Err(EditError::NoSuchItem);
        };
        if !self.items[p].is_editable() {
            return Err(EditError::NotText);
        }
        let v = chars_of(text.as_str());
        if trim_chars(v.as_slice()).len() == 0 {
            let ghost m = self@;
            self.items.remove(p);
            proof {
                assert(self@.items =~= m.items.remove(p as int));
                assert(self@ =~= with_items(m, m.items.remove(p as int)));
                lemma_remove_wf(m, p as int);
            }
            return Ok(false);
        }
        let ghost m = self@;
        let mut item = self.items.remove(p);
        let changed = match item.text() {
            Some(old_text) => {
                let a = chars_of(old_text);
                !crate::text::chars_eq(a.as_slice(), v.as_slice())
            },
            None => true,
        };
        item.edited = item.edited || changed;
        item.kind = ClipKind::Text { text };
        self.items.insert(p, item);
        proof {
            let old_it = m.items[p as int];
            let want = m.items.update(
                p as int,
                ClipModel {
                    kind: KindModel::Text(text@),
                    edited: old_it.edited || old_it.kind != KindModel::Text(text@),
                    ..old_it
                },
            );
            assert(self@.items =~= want);
            assert(self@ =~= with_items(m, want));
            lemma_relabel_wf(m, want);
        }
        Ok(true)
    }

    /// Append a fragment the user typed rather than copied. This skips the
    /// dedupe rule: a repeat typed on purpose is not an accident.
    pub fn add_text(&mut self, text: String, captured_at_ms: u64) -> (r: CaptureOutcome)
        requires
            old(self).wf(),
            old(self).id_room(),
        ensures
            final(self).wf(),
            (r@, final(self)@) == add_text_spec(old(self)@, text@, captured_at_ms),
    {
        let v = chars_of(text.as_str());
        if trim_chars(v.as_slice()).len() == 0 {
            return CaptureOutcome::Blank;
        }
        if self.policy.max_items > 0 && self.items.len() >= self.policy.max_items {
            return CaptureOutcome::Full { limit: self.policy.max_items };
        }
        self.push_new(ClipKind::Text { text }, None, captured_at_ms, true)
    }

    /// The fragments that will actually be pasted, in order.
    pub fn included(&self) -> (r: Vec<&ClipItem>)
        ensures
            models(r@) == only_included(self@.items),
    {
        let mut r: Vec<&ClipItem> = Vec::new();
        let mut i: usize = 0;
        while i < self.items.len()
            invariant
                i <= self.items@.len(),
                models(r@) == only_included(item_models(self.items@).take(i as int)),
            decreases self.items.len() - i,
        {
            let it = &self.items[i];
            if it.included {
                r.push(it);
            }
            proof {
                let s = item_models(self.items@).take(i + 1);
                assert(s.drop_last() =~= item_models(self.items@).take(i as int));
                assert(s.last() == it@);
                assert(models(r@) =~= only_included(s));
            }
            i = i + 1;
        }
        proof {
            assert(item_models(self.items@).take(self.items@.len() as int) =~= item_models(
                self.items@,
            ));
        }
        r
    }

    /// How many fragments will be pasted.
    pub fn included_count(&self) -> (n: usize)
        ensures
            n == only_included(self@.items).len(),
    {
        self.included().len()
    }

    /// Render the block that gets pasted. Excluded fragments are skipped, and
    /// the numbering closes up behind them.
    pub fn render(&self, template: &Template, clock: &ClockReading) -> (r: String)
        ensures
            exists|w: WorldModel|
                observed(w, only_included(self@.items), template@, clock@) && r@ == rendered(
                    only_included(self@.items),
                    template@,
                    w,
                ),
    {
        let inc = self.included();
        render(inc.as_slice(), template, clock)
    }
}

/// What the session holds, flattened for the interface. Never carries
/// payloads: the list shows previews.
#[derive(Clone, Debug)]
pub struct SessionSnapshot {
    pub active: bool,
    pub name: Option<String>,
    pub started_at_ms: u64,
    /// Everything captured, whether or not it will be pasted.
    pub count: usize,
    /// How many of those are ticked.
    pub included: usize,
    pub max_items: usize,
    pub items: Vec<ItemView>,
}

/// One row of the list.
#[derive(Clone, Debug)]
pub struct ItemView {
    pub id: u64,
    pub kind: String,
    pub preview: String,
    pub weight: usize,
    pub captured_at_ms: u64,
    pub source: Option<String>,
    pub included: bool,
    pub edited: bool,
    pub editable: bool,
    /// The thumbnail of an image fragment, when it has one.
    pub thumbnail: Option<String>,
    /// Position in the pasted block, or none when the fragment is excluded.
    pub position: Option<usize>,
}

/// Every fragment's size indicator fits in a `usize`.
pub open spec fn weights_fit(items: Seq<ClipModel>) -> bool {
    forall|i: int| 0 <= i < items.len() ==> weight_fits((#[trigger] items[i]).kind)
}

/// The thumbnail a row shows: that of an image which has one.
pub open spec fn thumbnail_of(k: KindModel) -> Option<Seq<char>> {
    match k {
        KindModel::Image(image) => if image.thumbnail.len() > 0 {
            Some(image.thumbnail)
        } else {
            None
        },
        _ => None,
    }
}

/// Where fragment `i` lands in the pasted block: counted over the included
/// fragments only, so the list shows the numbers the block will.
pub open spec fn position_of(items: Seq<ClipModel>, i: int) -> Option<usize> {
    if items[i].included {
        Some(only_included(items.take(i + 1)).len() as usize)
    } else {
        None
    }
}

/// Whether `v` is the row for fragment `it` at `position`.
pub open spec fn row_of(v: ItemView, it: ClipModel, position: Option<usize>) -> bool {
    &&& v.id == it.id
    &&& v.kind@ == kind_label(it.kind)
    &&& v.preview@ == preview_of(it.kind, 120)
    &&& v.weight == weight_of(it.kind)
    &&& v.captured_at_ms == it.captured_at_ms
    &&& opt_view(v.source) == it.source
    &&& v.included == it.included
    &&& v.edited == it.edited
    &&& v.editable == (it.kind is Text)
    &&& opt_view(v.thumbnail) == thumbnail_of(it.kind)
    &&& v.position == position
}

/// Whether `s` describes the live session `m`.
pub open spec fn snapshot_of(s: SessionSnapshot, m: SessionModel) -> bool {
    &&& s.active
    &&& opt_view(s.name) == m.name
    &&& s.started_at_ms == m.started_at_ms
    &&& s.count == m.items.len()
    &&& s.included == only_included(m.items).len()
    &&& s.max_items == m.policy.max_items
    &&& s.items@.len() == m.items.len()
    &&& forall|i: int|
        0 <= i < m.items.len() ==> row_of(#[trigger] s.items@[i], m.items[i], position_of(m.items, i))
}

/// Whether `s` is the snapshot of no session.
pub open spec fn idle_snapshot(s: SessionSnapshot) -> bool {
    &&& !s.active
    &&& s.name is None
    &&& s.started_at_ms == 0
    &&& s.count == 0
    &&& s.included == 0
    &&& s.max_items == 0
    &&& s.items@.len() == 0
}

impl SessionSnapshot {
    /// The snapshot shown when no session is open.
    pub fn idle() -> (s: Self)
        ensures
            idle_snapshot(s),
    {
        SessionSnapshot {
            active: false,
            name: None,
            started_at_ms: 0,
            count: 0,
            included: 0,
            max_items: 0,
            items: Vec::new(),
        }
    }
}

impl ItemView {
    fn from_item(i: &ClipItem, position: Option<usize>) -> (v: Self)
        requires
            weight_fits(i@.kind),
        ensures
            row_of(v, i@, position),
    {
        let thumbnail = match &i.kind {
            ClipKind::Image { image } => {
                if !image.thumbnail.as_str().is_empty() {
                    Some(image.thumbnail.clone())
                } else {
                    None
                }
            },
            _ => None,
        };
        ItemView {
            id: i.id,
            kind: i.kind.kind_name().to_owned(),
            preview: i.kind.preview(120),
            weight: i.kind.weight(),
            captured_at_ms: i.captured_at_ms,
            source: crate::item::copy_opt_string(&i.source),
            included: i.included,
            edited: i.edited,
            editable: i.is_editable(),
            thumbnail,
            position,
        }
    }
}

impl Session {
    /// The session flattened for the interface.
    pub fn snapshot(&self) -> (s: SessionSnapshot)
        requires
            weights_fit(self@.items),
        ensures
            snapshot_of(s, self@),
    {
        let ghost m = self@;
        let mut rows: Vec<ItemView> = Vec::new();
        let mut next: usize = 0;
        let mut i: usize = 0;
        while i < self.items.len()
            invariant
                i <= self.items@.len(),
                m == self@,
                weights_fit(m.items),
                rows@.len() == i,
                next == only_included(m.items.take(i as int)).len(),
                next <= i,
                forall|k: int| 0 <= k < i ==> row_of(#[trigger] rows@[k], m.items[k], position_of(m.items, k)),
            decreases self.items.len() - i,
        {
            let it = &self.items[i];
            proof {
                assert(m.items[i as int] == it@);
                let t = m.items.take(i + 1);
                assert(t.drop_last() =~= m.items.take(i as int));
                assert(t.last() == it@);
            }
            let position = if it.included {
                next = next + 1;
                Some(next)
            } else {
                None
            };
            rows.push(ItemView::from_item(it, position));
            i = i + 1;
        }
        proof {
            assert(m.items.take(m.items.len() as int) =~= m.items);
        }
        let name = match &self.name {
            Some(n) => Some(n.clone()),
            None => None,
        };
        SessionSnapshot {
            active: true,
            name,
            started_at_ms: self.started_at_ms,
            count: self.items.len(),
            included: next,
            max_items: self.policy.max_items,
            items: rows,
        }
    }
}

/// Owns the at-most-one live session.
#[derive(Clone, Debug)]
pub struct SessionStatus {
    current: Option<Session>,
}

impl View for SessionStatus {
    type V = Option<SessionModel>;

    closed spec fn view(&self) -> Option<SessionModel> {
        match self.current {
            Some(s) => Some(s@),
            None => None,
        }
    }
}

impl Default for SessionStatus {
    fn default() -> (r: Self)
        ensures
            r@ is None,
    {
        SessionStatus::new()
    }
}

/// Whether every fragment's size indicator fits in a `usize`.
fn sizes_fit(items: &[ClipItem]) -> (b: bool)
    ensures
        b == weights_fit(item_models(items@)),
{
    let ghost ms = item_models(items@);
    let mut i: usize = 0;
    while i < items.len()
        invariant
            i <= items@.len(),
            ms == item_models(items@),
            forall|k: int| 0 <= k < i ==> weight_fits((#[trigger] ms[k]).kind),
        decreases items.len() - i,
    {
        match &items[i].kind {
            ClipKind::Image { image } => {
                if image.width.checked_mul(image.height).is_none() {
                    assert(!weight_fits(ms[i as int].kind));
                    return false;
                }
            },
            _ => {},
        }
        i = i + 1;
    }
    true
}

impl SessionStatus {
    /// Whether the live session, if any, still has an id to hand out.
    pub fn ids_left(&self) -> (b: bool)
        ensures
            b == (self@ matches Some(m) ==> m.next_id < u64::MAX),
    {
        match &self.current {
            Some(s) => s.ids_left(),
            None => true,
        }
    }

    /// Whether every fragment of the live session, if any, has a size
    /// indicator that fits in a `usize`.
    pub fn sizes_fit(&self) -> (b: bool)
        ensures
            b == (self@ matches Some(m) ==> weights_fit(m.items)),
    {
        match &self.current {
            Some(s) => sizes_fit(s.items.as_slice()),
            None => true,
        }
    }

    /// A live session, if any, keeps the session invariant.
    pub open spec fn wf(&self) -> bool {
        match self@ {
            Some(m) => session_wf(m),
            None => true,
        }
    }

    /// No session open.
    pub fn new() -> (r: Self)
        ensures
            r@ is None,
            r.wf(),
    {
        SessionStatus { current: None }
    }

    pub fn is_active(&self) -> (b: bool)
        ensures
            b == (self@ is Some),
    {
        self.current.is_some()
    }

    pub fn session(&self) -> (r: Option<&Session>)
        ensures
            match r {
                Some(s) => self@ == Some(s@),
                None => self@ is None,
            },
    {
        self.current.as_ref()
    }

    /// The live session, for changing it.
    pub fn session_mut(&mut self) -> (r: Option<&mut Session>)
        ensures
            match r {
                Some(s) => old(self)@ == Some(s@) && final(self)@ == Some(final(s)@),
                None => old(self)@ is None && final(self)@ is None,
            },
    {
        match &mut self.current {
            Some(s) => Some(s),
            None => None,
        }
    }

    /// Open a session. Restarting over a live one is intentional: the hotkey
    /// is a toggle at the app layer, so reaching here twice means a fresh
    /// stack is wanted.
    pub fn start(&mut self, policy: CapturePolicy) -> (r: &mut Session)
        ensures
            r.wf(),
            r@.items.len() == 0 && r@.next_id == 1 && r@.name is None && r@.policy == policy,
            final(self)@ == Some(final(r)@),
    {
        self.current = Some(Session::start(policy, now_ms()));
        self.current.as_mut().unwrap()
    }

    /// Throw the session away without pasting.
    pub fn cancel(&mut self) -> (r: Option<Session>)
        ensures
            final(self)@ is None,
            match r {
                Some(s) => old(self)@ == Some(s@),
                None => old(self)@ is None,
            },
    {
        self.current.take()
    }

    /// Render the block to paste. `keep_open` decides whether the same stack
    /// can be pasted again.
    pub fn flush(&mut self, template: &Template, keep_open: bool, clock: &ClockReading) -> (r:
        Option<String>)
        requires
            old(self).wf(),
        ensures
            final(self).wf(),
            match old(self)@ {
                None => r is None && final(self)@ is None,
                Some(m) => (r matches Some(block) && exists|w: WorldModel|
                    observed(w, only_included(m.items), template@, clock@) && block@ == rendered(
                        only_included(m.items),
                        template@,
                        w,
                    )) && (keep_open ==> final(self)@ == old(self)@) && (!keep_open
                    ==> final(self)@ is None),
            },
    {
        let block = match &self.current {
            Some(s) => s.render(template, clock),
            None => return None,
        };
        if !keep_open {
            self.current = None;
        }
        Some(block)
    }

    /// Offer a clipboard value to the live session, stamped with the time
    /// now; with no session open it is `Inactive`.
    pub fn capture(&mut self, kind: ClipKind, source: Option<String>) -> (r: CaptureOutcome)
        requires
            old(self).wf(),
            old(self)@ matches Some(m) ==> m.next_id < u64::MAX,
        ensures
            final(self).wf(),
            match old(self)@ {
                None => r@ is Inactive && final(self)@ is None,
                Some(m) => exists|at: u64|
                    (r@, final(self)@->0) == capture_spec(m, kind@, opt_view(source), at)
                        && final(self)@ is Some,
            },
    {
        match &mut self.current {
            Some(s) => s.capture(kind, source, now_ms()),
            None => CaptureOutcome::Inactive,
        }
    }

    /// The live session flattened for the interface, or the idle snapshot.
    pub fn snapshot(&self) -> (s: SessionSnapshot)
        requires
            self@ matches Some(m) ==> weights_fit(m.items),
        ensures
            match self@ {
                Some(m) => snapshot_of(s, m),
                None => idle_snapshot(s),
            },
    {
        match &self.current {
            Some(s) => s.snapshot(),
            None => SessionSnapshot::idle(),
        }
    }
}

proof fn lemma_remove_wf(m: SessionModel, p: int)
    requires
        session_wf(m),
        0 <= p < m.items.len(),
    ensures
        session_wf(with_items(m, m.items.remove(p))),
{
    let s = m.items.remove(p);
    let g = |i: int| if i < p { i } else { i + 1 };
    assert forall|i: int| 0 <= i < s.len() implies 0 <= #[trigger] g(i) < m.items.len() && s[i] == m.items[g(i)] by {}
    lemma_reindex_wf(m, s, g);
}

/// A stack whose fragments are those of `m`, each taken once, keeps the
/// invariant.
proof fn lemma_reindex_wf(m: SessionModel, s: Seq<ClipModel>, g: spec_fn(int) -> int)
    requires
        session_wf(m),
        s.len() <= m.items.len(),
        forall|i: int| 0 <= i < s.len() ==> 0 <= #[trigger] g(i) < m.items.len() && s[i] == m.items[g(i)],
        forall|i: int, j: int| 0 <= i < s.len() && 0 <= j < s.len() && i != j ==> #[trigger] g(i) != #[trigger] g(j),
    ensures
        session_wf(with_items(m, s)),
{
    assert forall|i: int| 0 <= i < s.len() implies (#[trigger] s[i]).id < m.next_id by {
        assert(s[i] == m.items[g(i)]);
    }
    assert forall|i: int, j: int|
        0 <= i < s.len() && 0 <= j < s.len() && i != j implies (#[trigger] s[i]).id
        != (#[trigger] s[j]).id by {
        assert(s[i] == m.items[g(i)]);
        assert(s[j] == m.items[g(j)]);
        assert(g(i) != g(j));
    }
}

proof fn lemma_swap_wf(m: SessionModel, p: int, q: int)
    requires
        session_wf(m),
        0 <= p < m.items.len(),
        0 <= q < m.items.len(),
    ensures
        session_wf(with_items(m, m.items.update(p, m.items[q]).update(q, m.items[p]))),
{
    let s = m.items.update(p, m.items[q]).update(q, m.items[p]);
    let g = |i: int| if i == p { q } else if i == q { p } else { i };
    assert forall|i: int| 0 <= i < s.len() implies 0 <= #[trigger] g(i) < m.items.len() && s[i] == m.items[g(i)] by {}
    lemma_reindex_wf(m, s, g);
}

proof fn lemma_move_wf(m: SessionModel, from: int, to: int)
    requires
        session_wf(m),
        0 <= from < m.items.len(),
        0 <= to < m.items.len(),
    ensures
        session_wf(with_items(m, m.items.remove(from).insert(to, m.items[from]))),
{
    let r = m.items.remove(from);
    let s = r.insert(to, m.items[from]);
    let h = |k: int| if k < from { k } else { k + 1 };
    let g = |i: int| if i < to { h(i) } else if i == to { from } else { h(i - 1) };
    assert forall|i: int| 0 <= i < s.len() implies 0 <= #[trigger] g(i) < m.items.len() && s[i] == m.items[g(i)] by {
        if i < to {
            assert(s[i] == r[i]);
        } else if i > to {
            assert(s[i] == r[i - 1]);
        }
    }
    lemma_reindex_wf(m, s, g);
}

proof fn lemma_relabel_wf(m: SessionModel, s: Seq<ClipModel>)
    requires
        session_wf(m),
        s.len() == m.items.len(),
        forall|i: int| 0 <= i < s.len() ==> (#[trigger] s[i]).id == m.items[i].id,
    ensures
        session_wf(with_items(m, s)),
{
}

/// Unticking a fragment leaves it in the stack, out of the block, and
/// ticking it again puts the stack back exactly as it was.
pub proof fn law_untick_then_tick_restores(items: Seq<ClipModel>, p: int)
    requires
        0 <= p < items.len(),
        items[p].included,
    ensures
        ({
            let u = items.update(p, with_included(items[p], false));
            &&& u.len() == items.len()
            &&& u[p].id == items[p].id
            &&& u[p].kind == items[p].kind
            &&& !u[p].included
            &&& u.update(p, with_included(u[p], true)) == items
        }),
{
    let u = items.update(p, with_included(items[p], false));
    assert(u.update(p, with_included(u[p], true)) =~= items);
}

/// A capture keeps the session's invariant, and the id an appended fragment
/// gets belongs to no fragment already in the stack.
pub proof fn law_capture_id_is_fresh(
    m: SessionModel,
    k: KindModel,
    source: Option<Seq<char>>,
    at: u64,
)
    requires
        session_wf(m),
        m.next_id < u64::MAX,
    ensures
        session_wf(capture_spec(m, k, source, at).1),
        capture_spec(m, k, source, at).0 matches OutcomeModel::Appended { id, .. } ==> !has_id(
            m.items,
            id,
        ) && has_id(capture_spec(m, k, source, at).1.items, id),
{
    let (o, n) = capture_spec(m, k, source, at);
    if o is Appended {
        if has_id(m.items, m.next_id) {
            let p = choose|p: int| 0 <= p < m.items.len() && (#[trigger] m.items[p]).id == m.next_id;
            assert(m.items[p].id < m.next_id);
        }
        let last = n.items.len() - 1;
        assert(n.items[last].id == m.next_id);
        assert(has_id(n.items, m.next_id));
        assert forall|i: int| 0 <= i < n.items.len() implies (#[trigger] n.items[i]).id < n.next_id by {
            if i < m.items.len() {
                assert(n.items[i] == m.items[i]);
            }
        }
        assert forall|i: int, j: int|
            0 <= i < n.items.len() && 0 <= j < n.items.len() && i != j implies (
            #[trigger] n.items[i]).id != (#[trigger] n.items[j]).id by {
            if i < m.items.len() {
                assert(n.items[i] == m.items[i]);
            }
            if j < m.items.len() {
                assert(n.items[j] == m.items[j]);
            }
        }
    }
}

/// A typed line is appended even when the same text is already in the
/// stack: the repeat rule is for accidental copies, not deliberate lines.
pub proof fn law_typed_line_skips_the_repeat_rule(m: SessionModel, text: Seq<char>, at: u64)
    requires
        trim(text).len() > 0,
        !is_full(m.items.len(), m.policy),
    ensures
        add_text_spec(m, text, at).0 is Appended,
        add_text_spec(m, text, at).1 == append_item(m, KindModel::Text(text), None, at, true),
{
}

/// A session kept open through a flush pastes the same block when flushed
/// again, as long as the template shows no clock reading: two flushes of the
/// same stack render against worlds that can differ only in what the clock
/// said.
pub proof fn law_repeat_flush_same_block(
    m: SessionModel,
    t: TemplateModel,
    w1: WorldModel,
    w2: WorldModel,
    c1: ClockModel,
    c2: ClockModel,
)
    requires
        observed(w1, only_included(m.items), t, c1),
        observed(w2, only_included(m.items), t, c2),
        clockless(t),
    ensures
        rendered(only_included(m.items), t, w1) == rendered(only_included(m.items), t, w2),
{
    law_clockless_render_is_stable(only_included(m.items), t, w1, w2, c1, c2);
}

/// A fragment moves one place at a time: down to the next position unless it
/// is the last, up to the previous one unless it is the first, and nowhere
/// past either end.
pub proof fn law_move_one_place(p: int, n: int)
    requires
        0 <= p < n,
    ensures
        move_target(p, n, MoveDirection::Down) == if p + 1 < n {
            Some(p + 1)
        } else {
            None::<int>
        },
        move_target(p, n, MoveDirection::Up) == if p > 0 {
            Some(p - 1)
        } else {
            None::<int>
        },
{
}

/// A fragment dropped at a position lands there, and a drop past the end
/// lands at the end.
pub proof fn law_drop_lands_where_dropped(index: int, n: int)
    requires
        0 <= index,
        0 < n,
    ensures
        index < n ==> drop_target(index, n) == index,
        index >= n ==> drop_target(index, n) == n - 1,
{
}

/// A capture lands at the end of the stack, ticked and unedited, under the
/// next id, exactly when the policy takes its kind (text always, files and
/// images when enabled), it is not blank, the stack is below a set cap, and
/// (with dedupe on) no fragment in the stack has its digest; otherwise the
/// session is left as it was. (An id must be left to hand out.)
pub proof fn law_capture_appends_exactly_when(
    m: SessionModel,
    k: KindModel,
    source: Option<Seq<char>>,
    at: u64,
)
    requires
        m.next_id < u64::MAX,
    ensures
        ({
            let (o, m2) = capture_spec(m, k, source, at);
            let kind_ok = match k {
                KindModel::Text(..) => true,
                KindModel::Files(..) => m.policy.capture_files,
                KindModel::Image(..) => m.policy.capture_images,
            };
            let room = m.policy.max_items == 0 || m.items.len() < m.policy.max_items;
            let repeat = m.policy.dedupe && exists|i: int|
                0 <= i < m.items.len() && digest_of((#[trigger] m.items[i]).kind) == digest_of(k);
            let takes = kind_ok && !blank(k) && room && !repeat;
            &&& takes ==> o == (OutcomeModel::Appended {
                id: m.next_id,
                count: (m.items.len() + 1) as usize,
            }) && m2.items == m.items.push(
                ClipModel {
                    id: m.next_id,
                    kind: k,
                    captured_at_ms: at,
                    source,
                    included: true,
                    edited: false,
                },
            ) && m2.next_id == m.next_id + 1 && m2.policy == m.policy && m2.name == m.name
            &&& !takes ==> m2 == m && !(o is Appended)
        }),
{
}

/// Editing fragment `id`: refused when there is no such fragment or it is
/// not text; a blank new text removes the fragment; otherwise only that
/// fragment's text changes, it keeps its place, id, tick and source, and it
/// is marked edited once its text differs from what it held.
pub proof fn law_edit_rewrites_one_fragment(m: SessionModel, id: u64, text: Seq<char>)
    ensures
        ({
            let (r, m2) = edit_spec(m, id, text);
            let p = pos_of(m.items, id);
            &&& !has_id(m.items, id) ==> r == Err::<bool, EditError>(EditError::NoSuchItem) && m2 == m
            &&& has_id(m.items, id) && !(m.items[p].kind is Text) ==> r == Err::<bool, EditError>(
                EditError::NotText,
            ) && m2 == m
            &&& has_id(m.items, id) && m.items[p].kind is Text && (forall|i: int|
                0 <= i < text.len() ==> is_ws(#[trigger] text[i])) ==> r == Ok::<bool, EditError>(
                false,
            ) && m2.items == m.items.remove(p) && m2.next_id == m.next_id
            &&& has_id(m.items, id) && m.items[p].kind is Text && !(forall|i: int|
                0 <= i < text.len() ==> is_ws(#[trigger] text[i])) ==> {
                &&& r == Ok::<bool, EditError>(true)
                &&& m2.items.len() == m.items.len()
                &&& m2.next_id == m.next_id
                &&& forall|j: int| 0 <= j < m.items.len() && j != p ==> #[trigger] m2.items[j] == m.items[j]
                &&& m2.items[p].kind == KindModel::Text(text)
                &&& m2.items[p].id == id
                &&& m2.items[p].included == m.items[p].included
                &&& m2.items[p].source == m.items[p].source
                &&& m2.items[p].captured_at_ms == m.items[p].captured_at_ms
                &&& m2.items[p].edited == (m.items[p].edited || m.items[p].kind != KindModel::Text(text))
            }
        }),
{
    crate::text::law_trim_empty_iff_all_whitespace(text);
    if has_id(m.items, id) {
        let p = pos_of(m.items, id);
        assert(0 <= p < m.items.len() && m.items[p].id == id);
    }
}

} // verus!

//! Render handle ledger.
//!
//! The ledger counts, per display kind, how many GPU handles were created
//! and how many display objects that held one were dropped. The upload
//! entry points note a creation; a display that held an uploaded handle
//! notes its drop when it leaves the scene. One display object therefore
//! balances its row over an add/delete cycle. Visibility toggling never
//! touches the ledger. A row exists once its kind has been noted.
use vstd::prelude::*;

use crate::displays::DisplayKind;

verus! {

/// One ledger row: `(created, destroyed)` counts, absent until the kind
/// is first noted.
pub type Row = Option<(u64, u64)>;

/// Per-kind created/destroyed counts.
#[derive(Debug)]
pub struct HandleLedger {
    point_cloud: Row,
    mesh: Row,
    path: Row,
    frame: Row,
    marker: Row,
}

/// Created count of a row.
pub open spec fn created(r: Row) -> nat {
    match r {
        Some((c, _)) => c as nat,
        None => 0,
    }
}

/// Destroyed count of a row.
pub open spec fn destroyed(r: Row) -> nat {
    match r {
        Some((_, d)) => d as nat,
        None => 0,
    }
}

/// Live handle count of a row: `created − destroyed`.
pub open spec fn live(r: Row) -> int {
    created(r) - destroyed(r)
}

/// A row after one more creation.
pub open spec fn after_upload(r: Row) -> Row {
    Some(((created(r) + 1) as u64, destroyed(r) as u64))
}

/// A row after one more drop.
pub open spec fn after_drop(r: Row) -> Row {
    Some((created(r) as u64, (destroyed(r) + 1) as u64))
}

/// The kinds in the order a snapshot lists their rows.
pub open spec fn kind_order() -> Seq<DisplayKind> {
    seq![
        DisplayKind::PointCloud,
        DisplayKind::Mesh,
        DisplayKind::Path,
        DisplayKind::Frame,
        DisplayKind::Marker,
    ]
}

impl HandleLedger {
    /// The row of a kind.
    pub closed spec fn row(&self, kind: DisplayKind) -> Row {
        match kind {
            DisplayKind::PointCloud => self.point_cloud,
            DisplayKind::Mesh => self.mesh,
            DisplayKind::Path => self.path,
            DisplayKind::Frame => self.frame,
            DisplayKind::Marker => self.marker,
        }
    }

    /// An empty ledger: no row.
    pub fn new() -> (l: Self)
        ensures
            forall|k: DisplayKind| #[trigger] l.row(k) is None,
    {
        HandleLedger { point_cloud: None, mesh: None, path: None, frame: None, marker: None }
    }

    /// The `(created, destroyed)` counts of a kind, once it has been noted.
    pub fn counts(&self, kind: DisplayKind) -> (r: Row)
        ensures
            r == self.row(kind),
    {
        match kind {
            DisplayKind::PointCloud => self.point_cloud,
            DisplayKind::Mesh => self.mesh,
            DisplayKind::Path => self.path,
            DisplayKind::Frame => self.frame,
            DisplayKind::Marker => self.marker,
        }
    }

    fn set(&mut self, kind: DisplayKind, r: Row)
        ensures
            final(self).row(kind) == r,
            forall|k: DisplayKind| k != kind ==> #[trigger] final(self).row(k) == old(self).row(k),
    {
        match kind {
            DisplayKind::PointCloud => self.point_cloud = r,
            DisplayKind::Mesh => self.mesh = r,
            DisplayKind::Path => self.path = r,
            DisplayKind::Frame => self.frame = r,
            DisplayKind::Marker => self.marker = r,
        }
    }

    /// Record the provisioning of one GPU handle of `kind`.
    pub fn note_uploaded(&mut self, kind: DisplayKind)
        requires
            created(old(self).row(kind)) < u64::MAX,
        ensures
            final(self).row(kind) == after_upload(old(self).row(kind)),
            forall|k: DisplayKind| k != kind ==> #[trigger] final(self).row(k) == old(self).row(k),
    {
        let (c, d) = match self.counts(kind) {
            Some(counts) => counts,
            None => (0, 0),
        };
        self.set(kind, Some((c + 1, d)));
    }

    /// Record the drop of one display object of `kind` that held an
    /// uploaded handle.
    pub fn note_object_dropped(&mut self, kind: DisplayKind)
        requires
            destroyed(old(self).row(kind)) < u64::MAX,
        ensures
            final(self).row(kind) == after_drop(old(self).row(kind)),
            forall|k: DisplayKind| k != kind ==> #[trigger] final(self).row(k) == old(self).row(k),
    {
        let (c, d) = match self.counts(kind) {
            Some(counts) => counts,
            None => (0, 0),
        };
        self.set(kind, Some((c, d + 1)));
    }
}

/// The rows of a ledger as `(key, (created, destroyed))` pairs, in kind
/// order, for the kinds noted so far.
pub open spec fn snapshot_spec(l: HandleLedger) -> Seq<(Seq<char>, (u64, u64))>
{
    kind_order().filter(|k: DisplayKind| l.row(k) is Some).map_values(
        |k: DisplayKind| (k.key(), l.row(k).unwrap()),
    )
}

pub open spec fn snapshot_view(v: Seq<(String, (u64, u64))>) -> Seq<(Seq<char>, (u64, u64))> {
    v.map_values(|e: (String, (u64, u64))| (e.0@, e.1))
}

/// Snapshot of the ledger: for each kind noted so far (keyed by
/// [`DisplayKind::as_str`]), its `(created, destroyed)` counts.
pub fn snapshot(ledger: &HandleLedger) -> (rows: Vec<(String, (u64, u64))>)
    ensures
        snapshot_view(rows@) == snapshot_spec(*ledger),
{
    let kinds = [
        DisplayKind::PointCloud,
        DisplayKind::Mesh,
        DisplayKind::Path,
        DisplayKind::Frame,
        DisplayKind::Marker,
    ];
    let ghost order = kind_order();
    assert(kinds@ =~= order);
    let mut rows: Vec<(String, (u64, u64))> = Vec::new();
    let mut i: usize = 0;
    proof {
        reveal(Seq::filter);
        assert(order.take(0) =~= Seq::<DisplayKind>::empty());
        assert(snapshot_view(rows@) =~= Seq::<(Seq<char>, (u64, u64))>::empty());
    }
    while i < 5
        invariant
            i <= 5,
            kinds@ == order,
            order == kind_order(),
            snapshot_view(rows@) == order.take(i as int).filter(
                |k: DisplayKind| ledger.row(k) is Some,
            ).map_values(|k: DisplayKind| (k.key(), ledger.row(k).unwrap())),
        decreases 5 - i,
    {
        let kind = kinds[i];
        let ghost before = rows@;
        proof {
            reveal(Seq::filter);
            assert(order.take(i + 1).drop_last() =~= order.take(i as int));
        }
        match ledger.counts(kind) {
            Some(counts) => {
                let key = String::from_str(kind.as_str());
                rows.push((key, counts));
                assert(snapshot_view(rows@) =~= snapshot_view(before).push((kind.key(), counts)));
            },
            None => {},
        }
        i = i + 1;
    }
    assert(order.take(5) =~= order);
    rows
}

// ---------------------------------------------------------------------------
// Laws
// ---------------------------------------------------------------------------

/// One add/delete round of a kind (an upload noted, then the drop of the
/// display holding it) returns that kind's live count to where it was,
/// and leaves the row present.
pub proof fn law_round_balances(r: Row)
    requires
        created(r) < u64::MAX,
        destroyed(r) < u64::MAX,
    ensures
        live(after_drop(after_upload(r))) == live(r),
        after_drop(after_upload(r)) is Some,
{
}

/// Each note moves the live count of its row by exactly one: up for an
/// upload, down for a drop.
pub proof fn law_each_note_moves_live_by_one(r: Row)
    requires
        created(r) < u64::MAX,
        destroyed(r) < u64::MAX,
    ensures
        live(after_upload(r)) == live(r) + 1,
        live(after_drop(r)) == live(r) - 1,
{
}

/// A ledger in which no kind has been noted has an empty snapshot.
pub proof fn law_untouched_ledger_snapshot_is_empty(l: HandleLedger)
    requires
        forall|k: DisplayKind| #[trigger] l.row(k) is None,
    ensures
        snapshot_spec(l).len() == 0,
{
    reveal_with_fuel(Seq::filter, 6);
    let order = kind_order();
    assert(l.row(order[0]) is None && l.row(order[1]) is None && l.row(order[2]) is None
        && l.row(order[3]) is None && l.row(order[4]) is None);
    assert(order.filter(|k: DisplayKind| l.row(k) is Some) =~= Seq::<DisplayKind>::empty()) by {
        assert(order.drop_last().drop_last().drop_last().drop_last().drop_last().len() == 0);
    }
}


/// The counts a snapshot lists under `key`.
pub open spec fn entry_of(rows: Seq<(Seq<char>, (u64, u64))>, key: Seq<char>) -> Option<(u64, u64)>
    decreases rows.len(),
{
    if rows.len() == 0 {
        None
    } else if rows.last().0 == key {
        Some(rows.last().1)
    } else {
        entry_of(rows.drop_last(), key)
    }
}

/// The snapshot rows of the first `n` kinds.
spec fn snapshot_prefix(l: HandleLedger, n: int) -> Seq<(Seq<char>, (u64, u64))> {
    kind_order().take(n).filter(|k: DisplayKind| l.row(k) is Some).map_values(
        |k: DisplayKind| (k.key(), l.row(k).unwrap()),
    )
}

proof fn lemma_snapshot_prefix_step(l: HandleLedger, n: int, key: Seq<char>)
    requires
        0 <= n < 5,
    ensures
        entry_of(snapshot_prefix(l, n + 1), key) == if l.row(kind_order()[n]) is Some
            && kind_order()[n].key() == key {
            l.row(kind_order()[n])
        } else {
            entry_of(snapshot_prefix(l, n), key)
        },
{
    reveal(Seq::filter);
    let order = kind_order();
    let pred = |k: DisplayKind| l.row(k) is Some;
    let f = |k: DisplayKind| (k.key(), l.row(k).unwrap());
    assert(order.take(n + 1).drop_last() =~= order.take(n));
    let before = order.take(n).filter(pred);
    if pred(order[n]) {
        assert(order.take(n + 1).filter(pred) == before.push(order[n]));
        let rows = before.map_values(f).push(f(order[n]));
        assert(before.push(order[n]).map_values(f) =~= rows);
        assert(snapshot_prefix(l, n + 1) == rows);
        assert(snapshot_prefix(l, n) == before.map_values(f));
        assert(rows.drop_last() =~= before.map_values(f));
        assert(rows.last() == f(order[n]));
    } else {
        assert(order.take(n + 1).filter(pred) == before);
        assert(snapshot_prefix(l, n + 1) == snapshot_prefix(l, n));
    }
}

/// The position of a kind in the snapshot order.
spec fn kind_pos(k: DisplayKind) -> int {
    match k {
        DisplayKind::PointCloud => 0,
        DisplayKind::Mesh => 1,
        DisplayKind::Path => 2,
        DisplayKind::Frame => 3,
        DisplayKind::Marker => 4,
    }
}

/// A snapshot lists each kind's row under the kind's key.
proof fn lemma_snapshot_entry(l: HandleLedger, k: DisplayKind, n: int)
    requires
        0 <= n <= 5,
    ensures
        entry_of(snapshot_prefix(l, n), k.key()) == if kind_pos(k) < n {
            l.row(k)
        } else {
            None
        },
    decreases n,
{
    let order = kind_order();
    if n == 0 {
        reveal(Seq::filter);
        assert(order.take(0).filter(|k: DisplayKind| l.row(k) is Some) =~= Seq::<DisplayKind>::empty());
    } else {
        lemma_snapshot_entry(l, k, n - 1);
        lemma_snapshot_prefix_step(l, n - 1, k.key());
        assert(kind_pos(order[n - 1]) == n - 1);
        if order[n - 1] != k {
            crate::displays::law_kind_keys_are_distinct(order[n - 1], k);
        }
    }
}

/// Noting an upload (or a drop) of one kind moves that kind's snapshot
/// entry by exactly one creation (or one drop), counting an absent entry
/// as `(0, 0)`, and leaves the entry of every other kind as it was.
pub proof fn law_note_moves_one_snapshot_entry(
    before: HandleLedger,
    after: HandleLedger,
    kind: DisplayKind,
    upload: bool,
)
    requires
        after.row(kind) == if upload {
            after_upload(before.row(kind))
        } else {
            after_drop(before.row(kind))
        },
        forall|k: DisplayKind| k != kind ==> #[trigger] after.row(k) == before.row(k),
        created(before.row(kind)) < u64::MAX,
        destroyed(before.row(kind)) < u64::MAX,
    ensures
        ({
            let (c, d) = match entry_of(snapshot_spec(before), kind.key()) {
                Some(e) => e,
                None => (0u64, 0u64),
            };
            entry_of(snapshot_spec(after), kind.key()) == Some(
                if upload {
                    ((c + 1) as u64, d)
                } else {
                    (c, (d + 1) as u64)
                },
            )
        }),
        forall|k: DisplayKind|
            k != kind ==> entry_of(snapshot_spec(after), #[trigger] k.key()) == entry_of(
                snapshot_spec(before),
                k.key(),
            ),
{
    let order = kind_order();
    assert(order.take(5) =~= order);
    assert forall|k: DisplayKind| #[trigger] entry_of(snapshot_spec(before), k.key()) == before.row(k)
        && entry_of(snapshot_spec(after), k.key()) == after.row(k) by {
        lemma_snapshot_entry(before, k, 5);
        lemma_snapshot_entry(after, k, 5);
    }
    assert(entry_of(snapshot_spec(before), kind.key()) == before.row(kind));
}

} // verus!

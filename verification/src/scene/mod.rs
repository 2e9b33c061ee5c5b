//! Scene: the camera and an ordered set of display objects.
//!
//! A [`Scene`] owns the view state (of the host's camera type `C`) and every
//! display object in add order. The display payload `D` is opaque: the
//! scene API never names a display type.
//!
//! Objects are appended, never replaced. Every [`Scene::add`] stores the new
//! object alongside the existing ones and hands out a stable id drawn from
//! a monotonic counter: an id identifies one object for its whole scene
//! lifetime and is never reused after a removal. Visibility only gates
//! [`Scene::iter_visible`]; toggling it never frees data.
use vstd::prelude::*;

verus! {

/// An object of a [`Scene`]: stable id, display name, visibility, payload.
pub struct SceneObject<D> {
    /// Stable handle identifying this object within the scene.
    pub id: u64,
    /// Display name, as shown by the object list.
    pub name: String,
    /// Whether the object is drawn. Toggling never releases data.
    pub visible: bool,
    /// The display payload.
    pub object: D,
}

/// Index of the first object carrying `id`, or `-1` when none does.
pub open spec fn index_of<D>(objs: Seq<SceneObject<D>>, id: u64) -> int
    decreases objs.len(),
{
    if objs.len() == 0 {
        -1
    } else {
        let k = index_of(objs.drop_last(), id);
        if k >= 0 {
            k
        } else if objs.last().id == id {
            objs.len() - 1
        } else {
            -1
        }
    }
}

/// Ids strictly increase in add order (so no id occurs twice).
pub open spec fn ids_ascending<D>(objs: Seq<SceneObject<D>>) -> bool {
    forall|i: int, j: int| 0 <= i < j < objs.len() ==> #[trigger] objs[i].id < #[trigger] objs[j].id
}

/// The objects after removing the one carrying `id` (unchanged when none
/// does).
pub open spec fn removed<D>(objs: Seq<SceneObject<D>>, id: u64) -> Seq<SceneObject<D>> {
    let k = index_of(objs, id);
    if k >= 0 {
        objs.remove(k)
    } else {
        objs
    }
}

/// The objects after flipping the visibility of the one carrying `id`.
pub open spec fn toggled<D>(objs: Seq<SceneObject<D>>, id: u64) -> Seq<SceneObject<D>> {
    let k = index_of(objs, id);
    if k >= 0 {
        objs.update(k, SceneObject { visible: !objs[k].visible, ..objs[k] })
    } else {
        objs
    }
}

/// The visible objects, in add order.
pub open spec fn visible_objects<D>(objs: Seq<SceneObject<D>>) -> Seq<SceneObject<D>> {
    objs.filter(|o: SceneObject<D>| o.visible)
}

/// The objects not carrying `id`, in add order.
pub open spec fn without_id<D>(objs: Seq<SceneObject<D>>, id: u64) -> Seq<SceneObject<D>> {
    objs.filter(|o: SceneObject<D>| o.id != id)
}

/// What [`index_of`] finds: the first object with the id, or no object.
pub proof fn lemma_index_of<D>(objs: Seq<SceneObject<D>>, id: u64)
    ensures
        index_of(objs, id) == -1 <==> forall|i: int| 0 <= i < objs.len() ==> objs[i].id != id,
        index_of(objs, id) >= 0 ==> {
            let k = index_of(objs, id);
            &&& k < objs.len()
            &&& objs[k].id == id
            &&& forall|j: int| 0 <= j < k ==> objs[j].id != id
        },
        -1 <= index_of(objs, id) < objs.len(),
    decreases objs.len(),
{
    if objs.len() > 0 {
        let init = objs.drop_last();
        lemma_index_of(init, id);
        assert forall|i: int| 0 <= i < init.len() implies init[i] == objs[i] by {}
    }
}

/// The first object carrying `id` sits at `k`.
proof fn lemma_first_index<D>(objs: Seq<SceneObject<D>>, id: u64, k: int)
    requires
        0 <= k < objs.len(),
        objs[k].id == id,
        forall|j: int| 0 <= j < k ==> objs[j].id != id,
    ensures
        index_of(objs, id) == k,
{
    lemma_index_of(objs, id);
    let f = index_of(objs, id);
    if f < k {
        assert(objs[f].id == id);
    } else if f > k {
        assert(objs[k].id != id);
    }
}

/// A scene: one camera plus display objects in add order.
pub struct Scene<D, C> {
    /// Camera used to view the scene, swapped freely by the host.
    pub camera: C,
    /// Objects in add order.
    objects: Vec<SceneObject<D>>,
    /// Id handed to the next added object; every add advances it, so
    /// removed ids are never handed out again.
    next_id: u64,
}

impl<D, C> Scene<D, C> {
    /// The objects in add order.
    pub closed spec fn objects(&self) -> Seq<SceneObject<D>> {
        self.objects@
    }

    /// The camera the scene is viewed through.
    pub closed spec fn viewer(&self) -> C {
        self.camera
    }

    /// The id the next added object receives.
    pub closed spec fn next_id(&self) -> u64 {
        self.next_id
    }

    /// The scene invariant: ids are positive, strictly increasing in add
    /// order, and below the next id to hand out.
    pub open spec fn wf(&self) -> bool {
        &&& self.next_id() >= 1
        &&& ids_ascending(self.objects())
        &&& forall|i: int|
            0 <= i < self.objects().len() ==> 1 <= #[trigger] self.objects()[i].id < self.next_id()
    }

    /// Create an empty scene viewed through `camera`.
    pub fn new(camera: C) -> (s: Self)
        ensures
            s.viewer() == camera,
            s.objects() == Seq::<SceneObject<D>>::empty(),
            s.next_id() == 1,
            s.wf(),
    {
        Scene { camera, objects: Vec::new(), next_id: 1 }
    }

    /// Whether the scene holds no object.
    pub fn is_empty(&self) -> (b: bool)
        ensures
            b == (self.objects().len() == 0),
    {
        self.objects.len() == 0
    }

    /// Append `object` under `name`, visible, with a fresh stable id, and
    /// return that id. Ids increase by one per add and are never reused.
    pub fn add(&mut self, object: D, name: String) -> (id: u64)
        requires
            old(self).next_id() < u64::MAX,
        ensures
            id == old(self).next_id(),
            final(self).objects() == old(self).objects().push(
                SceneObject { id, name, visible: true, object },
            ),
            final(self).next_id() == old(self).next_id() + 1,
            final(self).viewer() == old(self).viewer(),
            old(self).wf() ==> final(self).wf(),
    {
        let id = self.next_id;
        self.next_id = self.next_id + 1;
        self.objects.push(SceneObject { id, name, visible: true, object });
        id
    }

    /// Position of the first object carrying `id`.
    fn position(&self, id: u64) -> (r: Option<usize>)
        ensures
            match r {
                Some(k) => index_of(self.objects(), id) == k as int,
                None => index_of(self.objects(), id) == -1,
            },
    {
        let mut i: usize = 0;
        while i < self.objects.len()
            invariant
                i <= self.objects@.len(),
                forall|j: int| 0 <= j < i ==> self.objects@[j].id != id,
            decreases self.objects@.len() - i,
        {
            if self.objects[i].id == id {
                proof {
                    lemma_first_index(self.objects@, id, i as int);
                }
                return Some(i);
            }
            i = i + 1;
        }
        proof {
            lemma_index_of(self.objects@, id);
        }
        None
    }

    /// Remove the object carrying `id` and return its payload; `None` when
    /// no object carries that id.
    pub fn remove(&mut self, id: u64) -> (r: Option<D>)
        ensures
            index_of(old(self).objects(), id) >= 0 ==> r == Some(
                old(self).objects()[index_of(old(self).objects(), id)].object,
            ),
            index_of(old(self).objects(), id) < 0 ==> r is None,
            final(self).objects() == removed(old(self).objects(), id),
            final(self).next_id() == old(self).next_id(),
            final(self).viewer() == old(self).viewer(),
            old(self).wf() ==> final(self).wf(),
    {
        proof {
            lemma_index_of(self.objects@, id);
        }
        match self.position(id) {
            Some(k) => {
                let entry = self.objects.remove(k);
                proof {
                    let o = old(self).objects@;
                    assert forall|i: int| 0 <= i < self.objects@.len() implies #[trigger] self.objects@[i]
                        == o[if i < k { i } else { i + 1 }] by {}
                }
                Some(entry.object)
            },
            None => None,
        }
    }

    /// Flip the visibility of the object carrying `id` and return its new
    /// state (`true` = visible). Unknown ids are a no-op reporting `false`.
    pub fn toggle_visible(&mut self, id: u64) -> (visible: bool)
        ensures
            index_of(old(self).objects(), id) >= 0 ==> visible == !old(self).objects()[index_of(
                old(self).objects(),
                id,
            )].visible,
            index_of(old(self).objects(), id) < 0 ==> !visible,
            final(self).objects() == toggled(old(self).objects(), id),
            final(self).next_id() == old(self).next_id(),
            final(self).viewer() == old(self).viewer(),
            old(self).wf() ==> final(self).wf(),
    {
        proof {
            lemma_index_of(self.objects@, id);
        }
        match self.position(id) {
            Some(k) => {
                let flipped = !self.objects[k].visible;
                self.objects[k].visible = flipped;
                flipped
            },
            None => false,
        }
    }

    /// The object carrying `id`, if it is still in the scene.
    pub fn get(&self, id: u64) -> (r: Option<&SceneObject<D>>)
        ensures
            index_of(self.objects(), id) >= 0 ==> r == Some(
                &self.objects()[index_of(self.objects(), id)],
            ),
            index_of(self.objects(), id) < 0 ==> r is None,
    {
        proof {
            lemma_index_of(self.objects@, id);
        }
        match self.position(id) {
            Some(k) => Some(&self.objects[k]),
            None => None,
        }
    }

    /// Mutable access to the object carrying `id`, if it is still in the
    /// scene.
    pub fn get_mut(&mut self, id: u64) -> (r: Option<&mut SceneObject<D>>)
        ensures
            index_of(old(self).objects(), id) < 0 ==> r is None && final(self).objects() == old(
                self,
            ).objects(),
            index_of(old(self).objects(), id) >= 0 ==> (r matches Some(e) && *e == old(
                self,
            ).objects()[index_of(old(self).objects(), id)] && final(self).objects() == old(
                self,
            ).objects().update(index_of(old(self).objects(), id), *final(e))),
            final(self).next_id() == old(self).next_id(),
            final(self).viewer() == old(self).viewer(),
    {
        proof {
            lemma_index_of(self.objects@, id);
        }
        match self.position(id) {
            Some(k) => Some(&mut self.objects[k]),
            None => None,
        }
    }

    /// All objects in add order.
    pub fn iter(&self) -> (s: &[SceneObject<D>])
        ensures
            s@ == self.objects(),
    {
        self.objects.as_slice()
    }

    /// Mutable access to all objects in add order (for refreshing payloads
    /// such as GPU handles).
    pub fn iter_mut(&mut self) -> (s: &mut [SceneObject<D>])
        ensures
            s@ == old(self).objects(),
            final(self).objects() == final(s)@,
            final(self).next_id() == old(self).next_id(),
            final(self).viewer() == old(self).viewer(),
    {
        self.objects.as_mut_slice()
    }

    /// The visible objects in add order: the set the renderer draws.
    pub fn iter_visible(&self) -> (v: Vec<&SceneObject<D>>)
        ensures
            v@.map_values(|o: &SceneObject<D>| *o) == visible_objects(self.objects()),
    {
        let mut v: Vec<&SceneObject<D>> = Vec::new();
        let mut i: usize = 0;
        assert(self.objects@.take(0) =~= Seq::<SceneObject<D>>::empty());
        assert(v@.map_values(|o: &SceneObject<D>| *o) =~= Seq::<SceneObject<D>>::empty());
        while i < self.objects.len()
            invariant
                i <= self.objects@.len(),
                v@.map_values(|o: &SceneObject<D>| *o) == visible_objects(self.objects@.take(i as int)),
            decreases self.objects@.len() - i,
        {
            let ghost before = v@;
            assert(self.objects@.take(i + 1).drop_last() =~= self.objects@.take(i as int));
            proof {
                reveal(Seq::filter);
            }
            if self.objects[i].visible {
                v.push(&self.objects[i]);
                assert(v@.map_values(|o: &SceneObject<D>| *o) =~= before.map_values(
                    |o: &SceneObject<D>| *o,
                ).push(self.objects@[i as int]));
            }
            i = i + 1;
        }
        assert(self.objects@.take(i as int) =~= self.objects@);
        v
    }

    /// The most recently added object, if any.
    pub fn last(&self) -> (r: Option<&SceneObject<D>>)
        ensures
            self.objects().len() > 0 ==> r == Some(&self.objects().last()),
            self.objects().len() == 0 ==> r is None,
    {
        let n = self.objects.len();
        if n == 0 {
            None
        } else {
            Some(&self.objects[n - 1])
        }
    }
}

// ---------------------------------------------------------------------------
// Laws
// ---------------------------------------------------------------------------

/// The id `add` hands out is carried by no object of the scene: ids are
/// never reused, even after removals.
pub proof fn law_next_id_is_fresh<D, C>(s: Scene<D, C>)
    requires
        s.wf(),
    ensures
        index_of(s.objects(), s.next_id()) == -1,
{
    lemma_index_of(s.objects(), s.next_id());
    assert forall|i: int| 0 <= i < s.objects().len() implies s.objects()[i].id != s.next_id() by {
        assert(1 <= s.objects()[i].id < s.next_id());
    }
}

/// In a scene whose ids ascend, removing an id drops exactly the object
/// carrying it and keeps every other object, in add order.
pub proof fn law_remove_keeps_the_others<D>(objs: Seq<SceneObject<D>>, id: u64)
    requires
        ids_ascending(objs),
    ensures
        removed(objs, id) == without_id(objs, id),
        index_of(removed(objs, id), id) == -1,
    decreases objs.len(),
{
    reveal(Seq::filter);
    lemma_index_of(objs, id);
    if objs.len() > 0 {
        let init = objs.drop_last();
        assert(ids_ascending(init)) by {
            assert forall|i: int, j: int| 0 <= i < j < init.len() implies #[trigger] init[i].id
                < #[trigger] init[j].id by {
                assert(init[i] == objs[i] && init[j] == objs[j]);
            }
        }
        law_remove_keeps_the_others(init, id);
        lemma_index_of(init, id);
        let k = index_of(objs, id);
        if objs.last().id == id {
            assert forall|i: int| 0 <= i < init.len() implies init[i].id != id by {
                assert(objs[i].id < objs[objs.len() - 1].id);
            }
            lemma_first_index(objs, id, objs.len() - 1);
            lemma_filter_all(init, id);
            assert(objs.remove(objs.len() - 1) =~= init);
        } else {
            assert(index_of(objs, id) == index_of(init, id));
            if k >= 0 {
                assert(objs.remove(k) =~= init.remove(k).push(objs.last()));
            }
        }
    }
    lemma_index_of(removed(objs, id), id);
    lemma_filter_none(objs, id);
}

/// Filtering out an id no object carries keeps every object.
proof fn lemma_filter_all<D>(objs: Seq<SceneObject<D>>, id: u64)
    requires
        forall|i: int| 0 <= i < objs.len() ==> objs[i].id != id,
    ensures
        without_id(objs, id) == objs,
    decreases objs.len(),
{
    reveal(Seq::filter);
    if objs.len() > 0 {
        let init = objs.drop_last();
        assert forall|i: int| 0 <= i < init.len() implies init[i].id != id by {
            assert(init[i] == objs[i]);
        }
        lemma_filter_all(init, id);
        assert(init.push(objs.last()) =~= objs);
    }
}

/// No object of the filtered sequence carries the id.
proof fn lemma_filter_none<D>(objs: Seq<SceneObject<D>>, id: u64)
    ensures
        forall|i: int| 0 <= i < without_id(objs, id).len() ==> without_id(objs, id)[i].id != id,
    decreases objs.len(),
{
    reveal(Seq::filter);
    if objs.len() > 0 {
        lemma_filter_none(objs.drop_last(), id);
        let init = without_id(objs.drop_last(), id);
        assert forall|i: int| 0 <= i < without_id(objs, id).len() implies without_id(objs, id)[i].id
            != id by {
            if objs.last().id != id {
                assert(without_id(objs, id) == init.push(objs.last()));
                if i < init.len() {
                    assert(without_id(objs, id)[i] == init[i]);
                }
            }
        }
    }
}

/// Toggling the same id twice restores every object's visibility.
pub proof fn law_toggle_twice_is_identity<D>(objs: Seq<SceneObject<D>>, id: u64)
    ensures
        toggled(toggled(objs, id), id) == objs,
{
    lemma_index_of(objs, id);
    let once = toggled(objs, id);
    lemma_index_of(once, id);
    let k = index_of(objs, id);
    if k >= 0 {
        lemma_first_index(once, id, k);
        assert(toggled(once, id) =~= objs);
    } else {
        assert(once == objs);
    }
}

/// Removing the id `add` just handed out gives back the added payload and
/// the objects as they were before the add.
pub proof fn law_add_then_remove<D, C>(s: Scene<D, C>, object: D, name: String)
    requires
        s.wf(),
    ensures
        ({
            let added = s.objects().push(
                SceneObject { id: s.next_id(), name, visible: true, object },
            );
            &&& index_of(added, s.next_id()) == s.objects().len()
            &&& added[index_of(added, s.next_id())].object == object
            &&& removed(added, s.next_id()) == s.objects()
        }),
{
    let added = s.objects().push(SceneObject { id: s.next_id(), name, visible: true, object });
    law_next_id_is_fresh(s);
    lemma_index_of(s.objects(), s.next_id());
    assert forall|j: int| 0 <= j < s.objects().len() implies added[j].id != s.next_id() by {
        assert(added[j] == s.objects()[j]);
    }
    lemma_first_index(added, s.next_id(), s.objects().len() as int);
    assert(added.remove(s.objects().len() as int) =~= s.objects());
}

/// Toggling never changes which objects the scene holds, nor their ids,
/// names or payloads, nor their order.
pub proof fn law_toggle_keeps_the_objects<D>(objs: Seq<SceneObject<D>>, id: u64)
    ensures
        toggled(objs, id).len() == objs.len(),
        forall|i: int|
            0 <= i < objs.len() ==> {
                let t = #[trigger] toggled(objs, id)[i];
                &&& t.id == objs[i].id
                &&& t.name == objs[i].name
                &&& t.object == objs[i].object
            },
{
    lemma_index_of(objs, id);
}


/// A scene operation, as far as the id counter is concerned.
pub enum SceneOp {
    Add,
    Remove(u64),
    ToggleVisible(u64),
    /// `get_mut` or `iter_mut`.
    Edit,
}

/// The next id after `ops`, applied to a new scene: each operation moves
/// the counter as its contract states (`add` by one, every other one not
/// at all).
pub open spec fn next_id_after(ops: Seq<SceneOp>) -> nat
    decreases ops.len(),
{
    if ops.len() == 0 {
        1
    } else {
        next_id_after(ops.drop_last()) + match ops.last() {
            SceneOp::Add => 1nat,
            _ => 0nat,
        }
    }
}

/// Number of adds among `ops`.
pub open spec fn adds_in(ops: Seq<SceneOp>) -> nat
    decreases ops.len(),
{
    if ops.len() == 0 {
        0
    } else {
        adds_in(ops.drop_last()) + match ops.last() {
            SceneOp::Add => 1nat,
            _ => 0nat,
        }
    }
}

/// Over any history of a new scene, the id an add hands out is one more
/// than the number of earlier adds, that is one more than the last id an
/// add returned (0 when there was none): 1, 2, 3 for a fresh scene, and 4
/// after three adds whatever was removed or toggled since. Removed ids are
/// therefore never handed out again.
pub proof fn law_add_ids_count_the_adds(ops: Seq<SceneOp>, k: int)
    requires
        0 <= k < ops.len(),
        ops[k] is Add,
    ensures
        next_id_after(ops.take(k)) == adds_in(ops.take(k)) + 1,
        forall|j: int|
            0 <= j < k && #[trigger] ops[j] is Add ==> next_id_after(ops.take(j)) < next_id_after(
                ops.take(k),
            ),
{
    lemma_next_id_counts_adds(ops.take(k));
    assert forall|j: int| 0 <= j < k && #[trigger] ops[j] is Add implies next_id_after(ops.take(j))
        < next_id_after(ops.take(k)) by {
        lemma_next_id_counts_adds(ops.take(j));
        lemma_adds_grow(ops, j, k);
    }
}

proof fn lemma_next_id_counts_adds(ops: Seq<SceneOp>)
    ensures
        next_id_after(ops) == adds_in(ops) + 1,
    decreases ops.len(),
{
    if ops.len() > 0 {
        lemma_next_id_counts_adds(ops.drop_last());
    }
}

/// An add at `j` makes every later prefix count more adds.
proof fn lemma_adds_grow(ops: Seq<SceneOp>, j: int, k: int)
    requires
        0 <= j < k <= ops.len(),
        ops[j] is Add,
    ensures
        adds_in(ops.take(j)) < adds_in(ops.take(k)),
    decreases k - j,
{
    assert(ops.take(k).drop_last() =~= ops.take(k - 1));
    if k - 1 == j {
        assert(ops.take(k).last() == ops[j]);
    } else {
        lemma_adds_grow(ops, j, k - 1);
    }
}

} // verus!

//! The editor's selection and how clicks change it.
use vstd::prelude::*;

verus! {

/// The index of the first occurrence of `e` in `s`.
pub open spec fn first_index(s: Seq<u64>, e: u64) -> Option<int>
    decreases s.len(),
{
    if s.len() == 0 {
        None
    } else {
        match first_index(s.drop_last(), e) {
            Some(i) => Some(i),
            None => if s.last() == e {
                Some(s.len() - 1)
            } else {
                None
            },
        }
    }
}

/// `s` without any occurrence of `e`.
pub open spec fn remove_all(s: Seq<u64>, e: u64) -> Seq<u64>
    decreases s.len(),
{
    if s.len() == 0 {
        s
    } else if s.last() == e {
        remove_all(s.drop_last(), e)
    } else {
        remove_all(s.drop_last(), e).push(s.last())
    }
}

/// Removing `e` keeps every other element.
proof fn lemma_remove_all_keeps(s: Seq<u64>, e: u64, x: u64)
    requires
        x != e,
        s.contains(x),
    ensures
        remove_all(s, e).contains(x),
    decreases s.len(),
{
    let d = s.drop_last();
    if s.last() == x {
        let r = remove_all(d, e);
        assert(r.push(x)[r.len() as int] == x);
    } else {
        let i = choose|i: int| 0 <= i < s.len() && s[i] == x;
        assert(i < s.len() - 1);
        assert(d[i] == x);
        lemma_remove_all_keeps(d, e, x);
        let r = remove_all(d, e);
        if s.last() != e {
            let j = choose|j: int| 0 <= j < r.len() && r[j] == x;
            assert(r.push(s.last())[j] == x);
        }
    }
}

/// The pool position of the most recently selected entity that is in the pool.
pub open spec fn last_in_pool(selected: Seq<u64>, pool: Seq<u64>) -> Option<int>
    decreases selected.len(),
{
    if selected.len() == 0 {
        None
    } else {
        match first_index(pool, selected.last()) {
            Some(i) => Some(i),
            None => last_in_pool(selected.drop_last(), pool),
        }
    }
}

/// A found index points into the sequence and holds the element.
pub broadcast proof fn lemma_first_index(s: Seq<u64>, e: u64)
    ensures
        #[trigger] first_index(s, e) matches Some(i) ==> 0 <= i < s.len() && s[i] == e
            && forall|k: int| 0 <= k < i ==> s[k] != e,
        first_index(s, e) is None ==> forall|k: int| 0 <= k < s.len() ==> s[k] != e,
    decreases s.len(),
{
    if s.len() > 0 {
        let d = s.drop_last();
        lemma_first_index(d, e);
        assert forall|k: int| 0 <= k < d.len() implies d[k] == s[k] by {}
    }
}

/// The index of the first occurrence of `e` in `v`.
pub fn position(v: &Vec<u64>, e: u64) -> (r: Option<usize>)
    ensures
        match first_index(v@, e) {
            Some(i) => r == Some(i as usize),
            None => r is None,
        },
        r matches Some(i) ==> i < v.len(),
{
    broadcast use lemma_first_index;

    let mut i: usize = 0;
    while i < v.len()
        invariant
            i <= v.len(),
            forall|k: int| 0 <= k < i ==> v@[k] != e,
        decreases v.len() - i,
    {
        if v[i] == e {
            proof {
                lemma_first_index(v@, e);
                if first_index(v@, e) is None {
                    assert(v@[i as int] != e);
                }
            }
            return Some(i);
        }
        i = i + 1;
    }
    proof {
        lemma_first_index(v@, e);
    }
    None
}

/// Which kind of thing a click in the viewport landed on.
#[derive(Clone, Copy, Debug, PartialEq, Eq, Structural)]
pub enum ClickTarget {
    /// A brick, and whether it is locked.
    Brick { locked: bool },
    /// A move, size or rotate handle.
    Gizmo,
    /// Empty space or anything else.
    Other,
}

/// The selected entities, and which services are selected.
pub struct Selection {
    /// The primary selection.
    pub entity: Option<u64>,
    pub entities: Vec<u64>,
    pub workspace_selected: bool,
    pub players_selected: bool,
    pub lighting_selected: bool,
}

/// The primary selection, if any, is one of the selected entities.
pub open spec fn primary_selected(s: Selection) -> bool {
    s.entity matches Some(e) ==> s.entities@.contains(e)
}

/// `after` is `before` once a range of `pool` up to `entity` is selected:
/// the stretch between the anchor and `entity`, where the anchor is the
/// primary selection's place in the pool, or, with no primary selection,
/// the place of the most recently selected entity that is in the pool, or
/// else `entity` itself. Nothing changes when `entity` is not in the pool.
pub open spec fn range_selected(before: Selection, after: Selection, entity: u64, pool: Seq<u64>) -> bool {
    match first_index(pool, entity) {
        None => after == before,
        Some(t) => {
            let start = match before.entity {
                Some(a) => match first_index(pool, a) {
                    Some(s) => s,
                    None => t,
                },
                None => match last_in_pool(before.entities@, pool) {
                    Some(s) => s,
                    None => t,
                },
            };
            let lo = if start < t {
                start
            } else {
                t
            };
            let hi = if start < t {
                t
            } else {
                start
            };
            &&& after.entities@ == pool.subrange(lo, hi + 1)
            &&& after.entity == Some(entity)
            &&& !after.workspace_selected
            &&& !after.players_selected
            &&& !after.lighting_selected
        },
    }
}

impl Selection {
    /// Nothing selected.
    pub fn new() -> (r: Self)
        ensures
            primary_selected(r),
            r.entity is None,
            r.entities@.len() == 0,
            !r.workspace_selected,
            !r.players_selected,
            !r.lighting_selected,
    {
        Selection {
            entity: None,
            entities: Vec::new(),
            workspace_selected: false,
            players_selected: false,
            lighting_selected: false,
        }
    }

    /// Selects exactly `entity`.
    pub fn select_only(&mut self, entity: u64)
        ensures
            primary_selected(*old(self)) ==> primary_selected(*final(self)),
            final(self).entity == Some(entity),
            final(self).entities@ == seq![entity],
            final(self).workspace_selected == old(self).workspace_selected,
            final(self).players_selected == old(self).players_selected,
            final(self).lighting_selected == old(self).lighting_selected,
    {
        self.entity = Some(entity);
        let mut only = Vec::new();
        only.push(entity);
        self.entities = only;
        assert(self.entities@[0] == entity);
    }

    /// Selects nothing.
    pub fn clear_entities(&mut self)
        ensures
            primary_selected(*old(self)) ==> primary_selected(*final(self)),
            final(self).entity is None,
            final(self).entities@.len() == 0,
            final(self).workspace_selected == old(self).workspace_selected,
            final(self).players_selected == old(self).players_selected,
            final(self).lighting_selected == old(self).lighting_selected,
    {
        self.entity = None;
        self.entities = Vec::new();
    }

    /// A primary click in the viewport. On an unlocked brick: with shift the
    /// brick is added (once) and becomes primary; with ctrl its first
    /// occurrence is removed and the last remaining entity becomes primary,
    /// or, if it was not selected, it is added and becomes primary; with
    /// neither it becomes the only selection. On empty space without shift
    /// or ctrl the selection is cleared. Clicks on locked bricks and on
    /// handles change nothing. Returns whether the click counted, in which
    /// case the workspace and players services are deselected and the
    /// canvas context menu is to be closed.
    pub fn select_brick(&mut self, target: u64, hit: ClickTarget, shift: bool, ctrl: bool) -> (r:
        bool)
        ensures
            primary_selected(*old(self)) ==> primary_selected(*final(self)),
            r == (hit == ClickTarget::Other || hit == (ClickTarget::Brick { locked: false })),
            !r ==> *final(self) == *old(self),
            r ==> !final(self).workspace_selected && !final(self).players_selected
                && final(self).lighting_selected == old(self).lighting_selected,
            hit == (ClickTarget::Brick { locked: false }) ==> {
                if shift {
                    &&& final(self).entity == Some(target)
                    &&& final(self).entities@ == if old(self).entities@.contains(target) {
                        old(self).entities@
                    } else {
                        old(self).entities@.push(target)
                    }
                } else if ctrl {
                    match first_index(old(self).entities@, target) {
                        Some(i) => {
                            &&& final(self).entities@ == old(self).entities@.remove(i)
                            &&& final(self).entity == if final(self).entities@.len() == 0 {
                                None
                            } else {
                                Some(final(self).entities@.last())
                            }
                        },
                        None => {
                            &&& final(self).entities@ == old(self).entities@.push(target)
                            &&& final(self).entity == Some(target)
                        },
                    }
                } else {
                    &&& final(self).entity == Some(target)
                    &&& final(self).entities@ == seq![target]
                }
            },
            hit == ClickTarget::Other ==> if !shift && !ctrl {
                final(self).entity is None && final(self).entities@.len() == 0
            } else {
                final(self).entity == old(self).entity && final(self).entities@ == old(
                    self,
                ).entities@
            },
    {
        broadcast use lemma_first_index;

        match hit {
            ClickTarget::Brick { locked } => {
                if locked {
                    return false;
                }
                if shift {
                    if position(&self.entities, target).is_none() {
                        self.entities.push(target);
                        assert(self.entities@[self.entities.len() - 1] == target);
                    }
                    self.entity = Some(target);
                } else if ctrl {
                    match position(&self.entities, target) {
                        Some(pos) => {
                            self.entities.remove(pos);
                            self.entity = if self.entities.len() == 0 {
                                None
                            } else {
                                Some(self.entities[self.entities.len() - 1])
                            };
                            assert(self.entities@.len() > 0 ==> self.entities@.contains(
                                self.entities@[self.entities.len() - 1],
                            ));
                        },
                        None => {
                            self.entities.push(target);
                            self.entity = Some(target);
                            assert(self.entities@[self.entities.len() - 1] == target);
                        },
                    }
                } else {
                    self.select_only(target);
                }
            },
            ClickTarget::Gizmo => {
                return false;
            },
            ClickTarget::Other => {
                if !shift && !ctrl {
                    self.clear_entities();
                }
            },
        }
        self.workspace_selected = false;
        self.players_selected = false;
        true
    }

    /// Selects the stretch of `pool` between the anchor and `entity`: the
    /// anchor is the primary selection's place in the pool, or, with no
    /// primary selection, the place of the most recently selected entity
    /// that is in the pool, or else `entity` itself. Nothing changes when
    /// `entity` is not in the pool.
    pub fn perform_range_selection(&mut self, entity: u64, pool: &Vec<u64>)
        ensures
            primary_selected(*old(self)) ==> primary_selected(*final(self)),
            range_selected(*old(self), *final(self), entity, pool@),
    {
        broadcast use lemma_first_index;

        if pool.len() == 0 {
            return;
        }
        let target_idx = match position(pool, entity) {
            Some(t) => t,
            None => {
                return;
            },
        };
        let start_idx = match self.entity {
            Some(active) => match position(pool, active) {
                Some(s) => s,
                None => target_idx,
            },
            None => {
                let mut found: Option<usize> = None;
                let mut k: usize = self.entities.len();
                assert(self.entities@.take(k as int) == self.entities@);
                while k > 0 && found.is_none()
                    invariant
                        k <= self.entities.len(),
                        found matches Some(s) ==> last_in_pool(self.entities@, pool@) == Some(
                            s as int,
                        ) && s < pool.len(),
                        found is None ==> last_in_pool(self.entities@, pool@) == last_in_pool(
                            self.entities@.take(k as int),
                            pool@,
                        ),
                    decreases k,
                {
                    assert(self.entities@.take(k as int).drop_last() == self.entities@.take(
                        k - 1,
                    ));
                    assert(self.entities@.take(k as int).last() == self.entities@[k - 1]);
                    let x = self.entities[k - 1];
                    let f = position(pool, x);
                    proof {
                        lemma_first_index(pool@, x);
                    }
                    assert(last_in_pool(self.entities@.take(k as int), pool@) == match first_index(
                        pool@,
                        x,
                    ) {
                        Some(i) => Some(i),
                        None => last_in_pool(self.entities@.take(k - 1), pool@),
                    });
                    found = f;
                    k = k - 1;
                }
                match found {
                    Some(s) => s,
                    None => target_idx,
                }
            },
        };
        let lo = if start_idx < target_idx {
            start_idx
        } else {
            target_idx
        };
        let hi = if start_idx < target_idx {
            target_idx
        } else {
            start_idx
        };
        let mut range: Vec<u64> = Vec::new();
        let mut i = lo;
        while i <= hi
            invariant
                lo <= hi < pool.len(),
                lo <= i <= hi + 1,
                range@ == pool@.subrange(lo as int, i as int),
            decreases hi + 1 - i,
        {
            range.push(pool[i]);
            i = i + 1;
        }
        self.workspace_selected = false;
        self.players_selected = false;
        self.lighting_selected = false;
        assert(range@[target_idx - lo] == entity);
        self.entities = range;
        self.entity = Some(entity);
    }

    /// A click on an entity in the explorer: with ctrl the entity is
    /// toggled (every occurrence removed, or appended and made primary); with
    /// shift a range of `pool` is selected; otherwise it becomes the only
    /// selection. Services are deselected in every case.
    pub fn explorer_click(&mut self, entity: u64, ctrl: bool, shift: bool, pool: &Vec<u64>)
        ensures
            primary_selected(*old(self)) ==> primary_selected(*final(self)),
            ctrl ==> {
                &&& !final(self).workspace_selected
                &&& !final(self).players_selected
                &&& !final(self).lighting_selected
                &&& if old(self).entities@.contains(entity) {
                    &&& final(self).entities@ == remove_all(old(self).entities@, entity)
                    &&& final(self).entity == if old(self).entity == Some(entity) {
                        if final(self).entities@.len() == 0 {
                            None
                        } else {
                            Some(final(self).entities@.last())
                        }
                    } else {
                        old(self).entity
                    }
                } else {
                    &&& final(self).entities@ == old(self).entities@.push(entity)
                    &&& final(self).entity == Some(entity)
                }
            },
            !ctrl && shift ==> range_selected(*old(self), *final(self), entity, pool@),
            !ctrl && !shift ==> {
                &&& final(self).entity == Some(entity)
                &&& final(self).entities@ == seq![entity]
                &&& !final(self).workspace_selected
                &&& !final(self).players_selected
                &&& !final(self).lighting_selected
            },
    {
        if ctrl {
            self.workspace_selected = false;
            self.players_selected = false;
            self.lighting_selected = false;
            if position(&self.entities, entity).is_some() {
                proof {
                    lemma_first_index(self.entities@, entity);
                }
                let mut kept: Vec<u64> = Vec::new();
                let mut i: usize = 0;
                while i < self.entities.len()
                    invariant
                        i <= self.entities.len(),
                        kept@ == remove_all(self.entities@.take(i as int), entity),
                    decreases self.entities.len() - i,
                {
                    assert(self.entities@.take(i + 1).drop_last() == self.entities@.take(i as int));
                    if self.entities[i] != entity {
                        kept.push(self.entities[i]);
                    }
                    i = i + 1;
                }
                assert(self.entities@.take(self.entities.len() as int) == self.entities@);
                let ghost before = self.entities@;
                self.entities = kept;
                if self.entity == Some(entity) {
                    self.entity = if self.entities.len() == 0 {
                        None
                    } else {
                        Some(self.entities[self.entities.len() - 1])
                    };
                    assert(self.entities@.len() > 0 ==> self.entities@.contains(
                        self.entities@[self.entities.len() - 1],
                    ));
                } else {
                    proof {
                        if let Some(p) = self.entity {
                            if before.contains(p) {
                                lemma_remove_all_keeps(before, entity, p);
                            }
                        }
                    }
                }
            } else {
                proof {
                    lemma_first_index(self.entities@, entity);
                }
                self.entities.push(entity);
                self.entity = Some(entity);
                assert(self.entities@[self.entities.len() - 1] == entity);
            }
        } else if shift {
            self.perform_range_selection(entity, pool);
        } else {
            self.select_only(entity);
            self.workspace_selected = false;
            self.players_selected = false;
            self.lighting_selected = false;
        }
    }

    /// The end of a rubber-band selection: the bricks found inside become the
    /// selection, the first of them primary, and the services are
    /// deselected; if none was found the selection is cleared.
    pub fn apply_marquee(&mut self, selected: Vec<u64>)
        ensures
            primary_selected(*old(self)) ==> primary_selected(*final(self)),
            selected@.len() > 0 ==> {
                &&& final(self).entities@ == selected@
                &&& final(self).entity == Some(selected@[0])
                &&& !final(self).workspace_selected
                &&& !final(self).players_selected
                &&& !final(self).lighting_selected
            },
            selected@.len() == 0 ==> {
                &&& final(self).entity is None
                &&& final(self).entities@.len() == 0
                &&& final(self).workspace_selected == old(self).workspace_selected
                &&& final(self).players_selected == old(self).players_selected
                &&& final(self).lighting_selected == old(self).lighting_selected
            },
    {
        if selected.len() > 0 {
            self.entity = Some(selected[0]);
            self.entities = selected;
            self.workspace_selected = false;
            self.players_selected = false;
            self.lighting_selected = false;
        } else {
            self.clear_entities();
        }
    }

    /// Selects all of `entities` (the listed bricks and scripts), the first primary.
    pub fn select_all(&mut self, entities: Vec<u64>)
        ensures
            primary_selected(*old(self)) ==> primary_selected(*final(self)),
            final(self).entities@ == entities@,
            final(self).entity == if entities@.len() == 0 {
                None
            } else {
                Some(entities@[0])
            },
            final(self).workspace_selected == old(self).workspace_selected,
            final(self).players_selected == old(self).players_selected,
            final(self).lighting_selected == old(self).lighting_selected,
    {
        self.entity = if entities.len() == 0 {
            None
        } else {
            Some(entities[0])
        };
        self.entities = entities;
    }
}


/// A shift-click selects exactly the stretch of the pool between the anchor
/// (the primary selection, or else the last selected entity found in the
/// pool) at index `a` and the clicked entity at index `t`, both ends
/// included, whichever side of the anchor the click lies on; the clicked
/// entity becomes primary.
pub proof fn lemma_range_selection_spans_anchor_and_target(
    before: Selection,
    after: Selection,
    entity: u64,
    pool: Seq<u64>,
    a: int,
    t: int,
)
    requires
        range_selected(before, after, entity, pool),
        first_index(pool, entity) == Some(t),
        (before.entity matches Some(x) && first_index(pool, x) == Some(a)) || (before.entity is None
            && last_in_pool(before.entities@, pool) == Some(a)),
    ensures
        a <= t ==> after.entities@ == pool.subrange(a, t + 1),
        t < a ==> after.entities@ == pool.subrange(t, a + 1),
        after.entities@.len() == (if a <= t {
            t - a
        } else {
            a - t
        }) + 1,
        0 <= a < pool.len(),
        after.entities@.contains(pool[a]),
        after.entities@.contains(entity),
        after.entity == Some(entity),
{
    lemma_first_index(pool, entity);
    if let Some(x) = before.entity {
        lemma_first_index(pool, x);
    } else {
        lemma_last_in_pool_bounds(before.entities@, pool);
    }
    if a <= t {
        assert(after.entities@[0] == pool[a]);
        assert(after.entities@[t - a] == pool[t]);
    } else {
        assert(after.entities@[0] == pool[t]);
        assert(after.entities@[a - t] == pool[a]);
    }
}

proof fn lemma_last_in_pool_bounds(selected: Seq<u64>, pool: Seq<u64>)
    ensures
        last_in_pool(selected, pool) matches Some(i) ==> 0 <= i < pool.len(),
    decreases selected.len(),
{
    if selected.len() > 0 {
        lemma_first_index(pool, selected.last());
        lemma_last_in_pool_bounds(selected.drop_last(), pool);
    }
}


proof fn lemma_remove_all_only(s: Seq<u64>, e: u64, x: u64)
    requires
        remove_all(s, e).contains(x),
    ensures
        s.contains(x),
        x != e,
    decreases s.len(),
{
    let d = s.drop_last();
    let r = remove_all(d, e);
    if s.last() == e {
        lemma_remove_all_only(d, e, x);
        let i = choose|i: int| 0 <= i < d.len() && d[i] == x;
        assert(s[i] == x);
    } else {
        let j = choose|j: int| 0 <= j < r.push(s.last()).len() && r.push(s.last())[j] == x;
        if j < r.len() {
            assert(r[j] == x);
            lemma_remove_all_only(d, e, x);
            let i = choose|i: int| 0 <= i < d.len() && d[i] == x;
            assert(s[i] == x);
        } else {
            assert(s[s.len() - 1] == x);
        }
    }
}

/// A ctrl-click on a selected entity takes it out of the selection entirely
/// and keeps every other selected entity; on an unselected one it adds it
/// and makes it primary. Either way a second ctrl-click on the same entity
/// gives the membership back.
pub proof fn lemma_ctrl_click_toggles(before: Seq<u64>, entity: u64)
    ensures
        forall|x: u64| #[trigger] remove_all(before, entity).contains(x) <==> (before.contains(x) && x != entity),
        forall|x: u64| #[trigger] before.push(entity).contains(x) <==> (before.contains(x) || x == entity),
        !before.contains(entity) ==> forall|x: u64| #[trigger] remove_all(before.push(entity), entity).contains(x)
            <==> before.contains(x),
{
    assert forall|x: u64| #[trigger] remove_all(before, entity).contains(x) <==> (before.contains(x) && x != entity) by {
        if remove_all(before, entity).contains(x) {
            lemma_remove_all_only(before, entity, x);
        }
        if before.contains(x) && x != entity {
            lemma_remove_all_keeps(before, entity, x);
        }
    }
    assert forall|x: u64| #[trigger] before.push(entity).contains(x) <==> (before.contains(x) || x == entity) by {
        if before.push(entity).contains(x) {
            let j = choose|j: int| 0 <= j < before.push(entity).len() && before.push(entity)[j] == x;
            if j < before.len() {
                assert(before[j] == x);
            }
        }
        if before.contains(x) {
            let j = choose|j: int| 0 <= j < before.len() && before[j] == x;
            assert(before.push(entity)[j] == x);
        }
        if x == entity {
            assert(before.push(entity)[before.len() as int] == x);
        }
    }
    if !before.contains(entity) {
        let t = before.push(entity);
        assert forall|x: u64| #[trigger] remove_all(t, entity).contains(x) <==> before.contains(x) by {
            if remove_all(t, entity).contains(x) {
                lemma_remove_all_only(t, entity, x);
                let j = choose|j: int| 0 <= j < t.len() && t[j] == x;
                assert(j < before.len());
                assert(before[j] == x);
            }
            if before.contains(x) {
                let j = choose|j: int| 0 <= j < before.len() && before[j] == x;
                assert(t[j] == x);
                lemma_remove_all_keeps(t, entity, x);
            }
        }
    }
}

} // verus!

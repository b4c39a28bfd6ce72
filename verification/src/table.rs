//! Columnar storage: one buffer per component kind, sharing a row index.

use crate::blob_vec::TypeErasedBuffer;
use crate::component::{ComponentId, ComponentInfo, Entity, Layout};
use vstd::prelude::*;

verus! {

/// The position of `id` in `kinds`, or -1 where it does not occur.
pub open spec fn slot_of(kinds: Seq<ComponentId>, id: ComponentId) -> int {
    if exists|i: int| 0 <= i < kinds.len() && kinds[i] == id {
        choose|i: int| 0 <= i < kinds.len() && kinds[i] == id
    } else {
        -1
    }
}

pub proof fn lemma_slot_of(kinds: Seq<ComponentId>, id: ComponentId)
    ensures
        -1 <= slot_of(kinds, id) < kinds.len(),
        slot_of(kinds, id) >= 0 ==> kinds[slot_of(kinds, id)] == id,
        slot_of(kinds, id) < 0 ==> forall|i: int| 0 <= i < kinds.len() ==> kinds[i] != id,
{
}

pub proof fn lemma_slot_of_unique(kinds: Seq<ComponentId>, i: int)
    requires
        0 <= i < kinds.len(),
        kinds.no_duplicates(),
    ensures
        slot_of(kinds, kinds[i]) == i,
{
    lemma_slot_of(kinds, kinds[i]);
}

/// The values of one component kind, one per row.
pub struct Column {
    id: ComponentId,
    data: TypeErasedBuffer,
}

/// The kinds of `columns`, in order.
pub closed spec fn kinds_of(columns: Seq<Column>) -> Seq<ComponentId> {
    Seq::new(columns.len(), |c: int| columns[c].id)
}

/// A set of columns that share one row index and one array of entities.
pub struct Table {
    columns: Vec<Column>,
    entities: Vec<Entity>,
}

impl Table {
    /// The component kinds of the columns, in column order.
    pub closed spec fn kinds(&self) -> Seq<ComponentId> {
        kinds_of(self.columns@)
    }

    /// The entity of each row.
    pub closed spec fn entities(&self) -> Seq<Entity> {
        self.entities@
    }

    /// The values of column `c`, by row.
    pub closed spec fn column(&self, c: int) -> Seq<Seq<u8>> {
        self.columns@[c].data@
    }

    pub closed spec fn column_layout(&self, c: int) -> Layout {
        self.columns@[c].data.layout()
    }

    pub closed spec fn column_has_destructor(&self, c: int) -> bool {
        self.columns@[c].data.has_destructor()
    }

    /// The values of column `c` dropped and not yet taken for destruction,
    /// oldest first.
    pub closed spec fn column_destructed(&self, c: int) -> Seq<Seq<u8>> {
        self.columns@[c].data.destructed()
    }

    /// What the destructor log of column `c` becomes when `gone` is dropped.
    pub open spec fn column_log_after(&self, c: int, gone: Seq<u8>) -> Seq<Seq<u8>> {
        if self.column_has_destructor(c) {
            self.column_destructed(c).push(gone)
        } else {
            self.column_destructed(c)
        }
    }

    /// The position of the column of `id`, or -1.
    pub open spec fn slot(&self, id: ComponentId) -> int {
        slot_of(self.kinds(), id)
    }

    /// Every column has one value per row, and no kind has two columns.
    pub closed spec fn wf(&self) -> bool {
        &&& forall|c: int|
            0 <= c < self.columns@.len() ==> (#[trigger] self.columns@[c]).data.wf()
                && self.columns@[c].data@.len() == self.entities@.len()
        &&& self.kinds().no_duplicates()
    }

    /// Same columns, of the same kinds and layouts, as `other`.
    pub open spec fn same_shape(&self, other: &Table) -> bool {
        &&& self.kinds() == other.kinds()
        &&& forall|c: int|
            0 <= c < self.kinds().len() ==> #[trigger] self.column_layout(c)
                == other.column_layout(c)
        &&& forall|c: int|
            0 <= c < self.kinds().len() ==> #[trigger] self.column_has_destructor(c)
                == other.column_has_destructor(c)
    }

    pub proof fn lemma_wf(&self)
        requires
            self.wf(),
        ensures
            self.kinds().no_duplicates(),
            forall|c: int|
                0 <= c < self.kinds().len() ==> (#[trigger] self.column(c)).len()
                    == self.entities().len(),
            forall|c: int, r: int|
                0 <= c < self.kinds().len() && 0 <= r < self.entities().len() ==> (
                #[trigger] self.column(c)[r]).len() == self.column_layout(c).size,
    {
        assert forall|c: int, r: int|
            0 <= c < self.kinds().len() && 0 <= r < self.entities().len() implies (
        #[trigger] self.column(c)[r]).len() == self.column_layout(c).size by {
            assert(self.columns@[c].data.wf());
            self.columns@[c].data.lemma_view();
        }
        assert forall|c: int| 0 <= c < self.kinds().len() implies (#[trigger] self.column(
            c,
        )).len() == self.entities().len() by {
            assert(self.columns@[c].data.wf());
        }
    }

    pub fn new() -> (table: Table)
        ensures
            table.wf(),
            table.kinds() == Seq::<ComponentId>::empty(),
            table.entities() == Seq::<Entity>::empty(),
    {
        let table = Table { columns: Vec::new(), entities: Vec::new() };
        assert(table.kinds() =~= Seq::<ComponentId>::empty());
        table
    }

    pub fn row_count(&self) -> (n: usize)
        ensures
            n == self.entities().len(),
    {
        self.entities.len()
    }

    pub fn column_count(&self) -> (n: usize)
        ensures
            n == self.kinds().len(),
    {
        self.columns.len()
    }

    /// The entity of `row`, or `None` past the last row.
    pub fn entity(&self, row: usize) -> (e: Option<Entity>)
        ensures
            e == (if row < self.entities().len() {
                Some(self.entities()[row as int])
            } else {
                None
            }),
    {
        if row < self.entities.len() {
            Some(self.entities[row])
        } else {
            None
        }
    }

    /// The kind of column `c`, or `None` where there is no such column.
    pub fn kind(&self, c: usize) -> (id: Option<ComponentId>)
        ensures
            id == (if c < self.kinds().len() {
                Some(self.kinds()[c as int])
            } else {
                None
            }),
    {
        if c < self.columns.len() {
            Some(self.columns[c].id)
        } else {
            None
        }
    }

    /// The position of the column of `id`, or `None` where it has none.
    pub fn find(&self, id: ComponentId) -> (at: Option<usize>)
        ensures
            at.is_some() == (self.slot(id) >= 0),
            at.is_some() ==> at.unwrap() < self.kinds().len() && self.kinds()[at.unwrap() as int]
                == id,
    {
        let mut i: usize = 0;
        while i < self.columns.len()
            invariant
                i <= self.columns@.len(),
                forall|k: int| 0 <= k < i ==> self.kinds()[k] != id,
            decreases self.columns@.len() - i,
        {
            if self.columns[i].id.0 == id.0 {
                proof {
                    assert(self.kinds()[i as int] == id);
                    lemma_slot_of(self.kinds(), id);
                }
                return Some(i);
            }
            i += 1;
        }
        proof {
            lemma_slot_of(self.kinds(), id);
        }
        None
    }

    /// Adds an empty column for the kind of `info`. Nothing is added where
    /// the table has rows already or has a column of that kind. Returns
    /// whether the column was added.
    pub fn add_column(&mut self, info: &ComponentInfo) -> (added: bool)
        requires
            old(self).wf(),
        ensures
            final(self).wf(),
            added == (old(self).entities().len() == 0 && old(self).slot(info.id) < 0),
            !added ==> *final(self) == *old(self),
            added ==> {
                &&& final(self).kinds() == old(self).kinds().push(info.id)
                &&& final(self).entities() == old(self).entities()
                &&& final(self).column_layout(old(self).kinds().len() as int) == info.layout
                &&& final(self).column_has_destructor(old(self).kinds().len() as int)
                    == info.needs_drop
                &&& final(self).column_destructed(old(self).kinds().len() as int) == Seq::<
                    Seq<u8>,
                >::empty()
                &&& forall|c: int|
                    0 <= c < old(self).kinds().len() ==> final(self).column_layout(c) == old(
                        self,
                    ).column_layout(c) && final(self).column_has_destructor(c) == old(
                        self,
                    ).column_has_destructor(c) && final(self).column_destructed(c) == old(
                        self,
                    ).column_destructed(c)
            },
    {
        if self.entities.len() != 0 {
            return false;
        }
        if self.find(info.id).is_some() {
            return false;
        }
        proof {
            lemma_slot_of(old(self).kinds(), info.id);
        }
        self.columns.push(Column { id: info.id, data: TypeErasedBuffer::new(info.layout, info.needs_drop) });
        proof {
            assert(self.kinds() =~= old(self).kinds().push(info.id));
            assert forall|c: int| 0 <= c < self.columns@.len() implies (
            #[trigger] self.columns@[c]).data.wf() && self.columns@[c].data@.len()
                == self.entities@.len() by {
                if c < old(self).columns@.len() {
                    assert(old(self).columns@[c].data.wf());
                }
            }
        }
        true
    }

    /// The value of column `c` at `row`, or `None` where there is no such
    /// column or row.
    pub fn get(&self, c: usize, row: usize) -> (bytes: Option<&[u8]>)
        requires
            self.wf(),
        ensures
            bytes.is_some() == (c < self.kinds().len() && row < self.entities().len()),
            bytes.is_some() ==> bytes.unwrap()@ == self.column(c as int)[row as int],
    {
        if c < self.columns.len() {
            assert(self.columns@[c as int].data.wf());
            self.columns[c].data.get(row)
        } else {
            None
        }
    }

    /// The value of column `c` at `row`, for writing, or `None` where there
    /// is no such column or row. What is written reaches that value alone.
    /// A slice keeps its length, and the change to the table is stated for
    /// writes that do.
    pub fn get_mut(&mut self, c: usize, row: usize) -> (bytes: Option<&mut [u8]>)
        requires
            old(self).wf(),
        ensures
            bytes.is_some() == (c < old(self).kinds().len() && row < old(self).entities().len()),
            bytes.is_none() ==> final(self).wf() && (c < old(self).kinds().len() ==> final(self).column(c as int) == old(self).column(c as int)),
            bytes.is_some() ==> {
                &&& bytes.unwrap()@ == old(self).column(c as int)[row as int]
                &&& final(bytes.unwrap())@.len() == bytes.unwrap()@.len() ==> final(self).wf()
                    && final(self).column(c as int) == old(self).column(c as int).update(
                    row as int,
                    final(bytes.unwrap())@,
                )
            },
            final(self).same_shape(old(self)),
            final(self).entities() == old(self).entities(),
            forall|k: int|
                0 <= k < old(self).kinds().len() && k != c ==> #[trigger] final(self).column(k)
                    == old(self).column(k),
            forall|k: int|
                0 <= k < old(self).kinds().len() ==> #[trigger] final(self).column_destructed(k)
                    == old(self).column_destructed(k),
    {
        if c < self.columns.len() {
            assert(self.columns@[c as int].data.wf());
            proof {
                assert forall|after: Seq<Column>|
                    after.len() == old(self).columns@.len() && (forall|k: int|
                        0 <= k < after.len() ==> (#[trigger] after[k]).id == old(
                            self,
                        ).columns@[k].id) implies #[trigger] kinds_of(after) == old(
                    self,
                ).kinds() by {
                    assert(kinds_of(after) =~= old(self).kinds());
                }
            }
            self.columns[c].data.get_mut(row)
        } else {
            None
        }
    }

    /// Hands over the values of column `c` that were dropped since the last
    /// call, oldest first: the destructor is due once on each of them.
    /// Nothing is handed over where there is no such column.
    pub fn take_destructed(&mut self, c: usize) -> (gone: Vec<Vec<u8>>)
        requires
            old(self).wf(),
        ensures
            final(self).wf(),
            final(self).same_shape(old(self)),
            final(self).entities() == old(self).entities(),
            c >= old(self).kinds().len() ==> gone@.len() == 0,
            c < old(self).kinds().len() ==> gone@.len() == old(self).column_destructed(
                c as int,
            ).len() && final(self).column_destructed(c as int) == Seq::<Seq<u8>>::empty(),
            forall|i: int|
                0 <= i < gone@.len() ==> (#[trigger] gone@[i])@ == old(self).column_destructed(
                    c as int,
                )[i],
            forall|k: int|
                0 <= k < old(self).kinds().len() ==> #[trigger] final(self).column(k) == old(
                    self,
                ).column(k),
            forall|k: int|
                0 <= k < old(self).kinds().len() && k != c ==> #[trigger] final(self).column_destructed(k) == old(self).column_destructed(k),
    {
        if c < self.columns.len() {
            assert(self.columns@[c as int].data.wf());
            let gone = self.columns[c].data.take_destructed();
            proof {
                assert(self.kinds() =~= old(self).kinds());
                assert forall|k: int| 0 <= k < self.columns@.len() implies (
                #[trigger] self.columns@[k]).data.wf() && self.columns@[k].data@.len()
                    == self.entities@.len() by {
                    assert(old(self).columns@[k].data.wf());
                }
            }
            gone
        } else {
            Vec::new()
        }
    }

    /// Appends one row for `entity`, with `values[c]` as the value of
    /// column `c`. Returns the new row's index.
    pub fn allocate_row(&mut self, entity: Entity, values: &Vec<Vec<u8>>) -> (row: usize)
        requires
            old(self).wf(),
            values@.len() == old(self).kinds().len(),
            forall|c: int|
                0 <= c < values@.len() ==> (#[trigger] values@[c])@.len() == old(
                    self,
                ).column_layout(c).size,
        ensures
            final(self).wf(),
            row == old(self).entities().len(),
            final(self).entities() == old(self).entities().push(entity),
            final(self).kinds() == old(self).kinds(),
            final(self).same_shape(old(self)),
            forall|c: int|
                0 <= c < old(self).kinds().len() ==> #[trigger] final(self).column(c) == old(
                    self,
                ).column(c).push(values@[c]@),
            forall|c: int|
                0 <= c < old(self).kinds().len() ==> #[trigger] final(self).column_destructed(c)
                    == old(self).column_destructed(c),
    {
        let row: usize = self.entities.len();
        self.entities.push(entity);
        let held: usize = self.entities.len();
        let n: usize = self.columns.len();
        let mut c: usize = 0;
        while c < n
            invariant
                c <= n,
                n == self.columns@.len(),
                n == old(self).columns@.len(),
                n == values@.len(),
                row + 1 == held,
                row == old(self).entities@.len(),
                self.entities@ == old(self).entities@.push(entity),
                old(self).wf(),
                forall|k: int|
                    0 <= k < n ==> (#[trigger] values@[k])@.len() == old(self).column_layout(k).size,
                forall|k: int|
                    0 <= k < n ==> {
                        &&& (#[trigger] self.columns@[k]).id == old(self).columns@[k].id
                        &&& self.columns@[k].data.wf()
                        &&& self.columns@[k].data.layout() == old(self).columns@[k].data.layout()
                        &&& self.columns@[k].data.has_destructor() == old(
                            self,
                        ).columns@[k].data.has_destructor()
                        &&& self.columns@[k].data.destructed() == old(
                            self,
                        ).columns@[k].data.destructed()
                    },
                forall|k: int|
                    0 <= k < c ==> (#[trigger] self.columns@[k]).data@ == old(
                        self,
                    ).columns@[k].data@.push(values@[k]@),
                forall|k: int|
                    c <= k < n ==> (#[trigger] self.columns@[k]).data@ == old(
                        self,
                    ).columns@[k].data@,
            decreases n - c,
        {
            assert(old(self).columns@[c as int].data.wf());
            self.columns[c].data.push(values[c].as_slice());
            c += 1;
        }
        proof {
            assert(self.kinds() =~= old(self).kinds());
        }
        row
    }

    /// Removes `row` by moving the last row into its place, and destructs
    /// its values. Returns the entity that now stands at `row`, if any.
    pub fn swap_remove_row(&mut self, row: usize) -> (moved: Option<Entity>)
        requires
            old(self).wf(),
            row < old(self).entities().len(),
        ensures
            final(self).wf(),
            final(self).entities() == old(self).entities().update(
                row as int,
                old(self).entities().last(),
            ).drop_last(),
            moved == (if row < old(self).entities().len() - 1 {
                Some(old(self).entities().last())
            } else {
                None
            }),
            final(self).kinds() == old(self).kinds(),
            final(self).same_shape(old(self)),
            forall|c: int|
                0 <= c < old(self).kinds().len() ==> #[trigger] final(self).column(c) == old(
                    self,
                ).column(c).update(row as int, old(self).column(c).last()).drop_last(),
            forall|c: int|
                0 <= c < old(self).kinds().len() ==> #[trigger] final(self).column_destructed(c)
                    == old(self).column_log_after(c, old(self).column(c)[row as int]),
    {
        let n: usize = self.columns.len();
        let mut c: usize = 0;
        while c < n
            invariant
                c <= n,
                n == self.columns@.len(),
                n == old(self).columns@.len(),
                row < old(self).entities@.len(),
                self.entities@ == old(self).entities@,
                old(self).wf(),
                forall|k: int|
                    0 <= k < n ==> {
                        &&& (#[trigger] self.columns@[k]).id == old(self).columns@[k].id
                        &&& self.columns@[k].data.wf()
                        &&& self.columns@[k].data.layout() == old(self).columns@[k].data.layout()
                        &&& self.columns@[k].data.has_destructor() == old(
                            self,
                        ).columns@[k].data.has_destructor()
                    },
                forall|k: int|
                    0 <= k < c ==> {
                        &&& (#[trigger] self.columns@[k]).data@ == old(
                            self,
                        ).columns@[k].data@.update(
                            row as int,
                            old(self).columns@[k].data@.last(),
                        ).drop_last()
                        &&& self.columns@[k].data.destructed() == old(self).column_log_after(
                            k,
                            old(self).columns@[k].data@[row as int],
                        )
                    },
                forall|k: int|
                    c <= k < n ==> (#[trigger] self.columns@[k]).data@ == old(
                        self,
                    ).columns@[k].data@ && self.columns@[k].data.destructed() == old(
                        self,
                    ).columns@[k].data.destructed(),
            decreases n - c,
        {
            assert(old(self).columns@[c as int].data.wf());
            self.columns[c].data.swap_remove_and_drop(row);
            proof {
                let gone = old(self).columns@[c as int].data@[row as int];
                assert(old(self).columns@[c as int].data.destructed() + seq![gone] =~= old(
                    self,
                ).columns@[c as int].data.destructed().push(gone));
            }
            c += 1;
        }
        self.entities.swap_remove(row);
        proof {
            assert(self.kinds() =~= old(self).kinds());
            assert forall|k: int| 0 <= k < self.columns@.len() implies (
            #[trigger] self.columns@[k]).data.wf() && self.columns@[k].data@.len()
                == self.entities@.len() by {
                assert(old(self).columns@[k].data.wf());
            }
        }
        if row < self.entities.len() {
            Some(self.entities[row])
        } else {
            None
        }
    }
    /// The value that column `d` of `other` receives when row `row` of this
    /// table moves there: the value of the column of the same kind here, or
    /// `fill[d]` where this table has no such column.
    pub open spec fn moved_value(&self, other: &Table, row: int, fill: Seq<Vec<u8>>, d: int) -> Seq<
        u8,
    > {
        let s = self.slot(other.kinds()[d]);
        if s >= 0 {
            self.column(s)[row]
        } else {
            fill[d]@
        }
    }

    /// Whether row values can move from this table to `other`: a kind that
    /// both have has elements of one size in both.
    pub open spec fn fits_into(&self, other: &Table) -> bool {
        forall|d: int|
            0 <= d < other.kinds().len() && self.slot(#[trigger] other.kinds()[d]) >= 0
                ==> self.column_layout(self.slot(other.kinds()[d])).size == other.column_layout(
                d,
            ).size
    }

    /// What moving row `row` of this table into `other` does: `source` and
    /// `target` are the two tables afterwards, `moved` the new row's index
    /// in `target` and the entity that took the row's place in `source`.
    pub open spec fn row_moved(
        &self,
        other: &Table,
        source: &Table,
        target: &Table,
        row: int,
        fill: Seq<Vec<u8>>,
        moved: (usize, Option<Entity>),
    ) -> bool {
        &&& moved.0 == other.entities().len()
        &&& moved.1 == (if row < self.entities().len() - 1 {
            Some(self.entities().last())
        } else {
            None
        })
        &&& target.entities() == other.entities().push(self.entities()[row])
        &&& source.entities() == self.entities().update(row, self.entities().last()).drop_last()
        &&& source.same_shape(self)
        &&& target.same_shape(other)
        &&& forall|d: int|
            0 <= d < other.kinds().len() ==> #[trigger] target.column(d) == other.column(d).push(
                self.moved_value(other, row, fill, d),
            )
        &&& forall|d: int|
            0 <= d < other.kinds().len() ==> #[trigger] target.column_destructed(d)
                == other.column_destructed(d)
        &&& forall|c: int|
            0 <= c < self.kinds().len() ==> #[trigger] source.column(c) == self.column(c).update(
                row,
                self.column(c).last(),
            ).drop_last()
        &&& forall|c: int|
            0 <= c < self.kinds().len() ==> #[trigger] source.column_destructed(c) == (
            if other.slot(self.kinds()[c]) >= 0 {
                self.column_destructed(c)
            } else {
                self.column_log_after(c, self.column(c)[row])
            })
    }

    /// Moves `row` into a new last row of `other`. The value of a kind that
    /// both tables have moves as it is, undestructed. The value of a kind
    /// that only this table has is destructed. A kind that only `other` has
    /// takes its value from `fill`, which has one entry per column of
    /// `other`. Returns the new row's index in `other` and the entity that
    /// now stands at `row` here, if any.
    pub fn move_row_to(&mut self, other: &mut Table, row: usize, fill: &Vec<Vec<u8>>) -> (moved: (
        usize,
        Option<Entity>,
    ))
        requires
            old(self).wf(),
            old(other).wf(),
            row < old(self).entities().len(),
            old(self).fits_into(old(other)),
            fill@.len() == old(other).kinds().len(),
            forall|d: int|
                0 <= d < fill@.len() ==> (#[trigger] fill@[d])@.len() == old(other).column_layout(
                    d,
                ).size,
        ensures
            final(self).wf(),
            final(other).wf(),
            old(self).row_moved(old(other), final(self), final(other), row as int, fill@, moved),
    {
        let n: usize = self.columns.len();
        let m: usize = other.columns.len();
        let new_row: usize = other.entities.len();
        let entity: Entity = self.entities[row];
        other.entities.push(entity);
        let held: usize = other.entities.len();
        let ghost skinds = old(self).kinds();
        let ghost okinds = old(other).kinds();
        proof {
            old(self).lemma_wf();
        }
        let mut s: usize = 0;
        while s < n
            invariant
                s <= n,
                n == self.columns@.len(),
                n == old(self).columns@.len(),
                m == other.columns@.len(),
                m == old(other).columns@.len(),
                new_row + 1 == held,
                new_row == old(other).entities@.len(),
                row < old(self).entities@.len(),
                self.entities@ == old(self).entities@,
                other.entities@ == old(other).entities@.push(entity),
                old(self).wf(),
                old(other).wf(),
                old(self).fits_into(old(other)),
                skinds == old(self).kinds(),
                okinds == old(other).kinds(),
                self.kinds() == skinds,
                other.kinds() == okinds,
                forall|k: int|
                    0 <= k < n ==> {
                        &&& (#[trigger] self.columns@[k]).data.wf()
                        &&& self.columns@[k].data.layout() == old(self).columns@[k].data.layout()
                        &&& self.columns@[k].data.has_destructor() == old(
                            self,
                        ).columns@[k].data.has_destructor()
                    },
                forall|k: int|
                    0 <= k < m ==> {
                        &&& (#[trigger] other.columns@[k]).data.wf()
                        &&& other.columns@[k].data.layout() == old(other).columns@[k].data.layout()
                        &&& other.columns@[k].data.has_destructor() == old(
                            other,
                        ).columns@[k].data.has_destructor()
                        &&& other.columns@[k].data.destructed() == old(
                            other,
                        ).columns@[k].data.destructed()
                    },
                forall|k: int|
                    0 <= k < s ==> {
                        &&& (#[trigger] self.columns@[k]).data@ == old(
                            self,
                        ).columns@[k].data@.update(
                            row as int,
                            old(self).columns@[k].data@.last(),
                        ).drop_last()
                        &&& self.columns@[k].data.destructed() == (if slot_of(okinds, skinds[k])
                            >= 0 {
                            old(self).columns@[k].data.destructed()
                        } else {
                            old(self).column_log_after(k, old(self).columns@[k].data@[row as int])
                        })
                    },
                forall|k: int|
                    s <= k < n ==> (#[trigger] self.columns@[k]).data@ == old(
                        self,
                    ).columns@[k].data@ && self.columns@[k].data.destructed() == old(
                        self,
                    ).columns@[k].data.destructed(),
                forall|d: int|
                    0 <= d < m ==> (#[trigger] other.columns@[d]).data@ == (if 0 <= slot_of(
                        skinds,
                        okinds[d],
                    ) < s {
                        old(other).columns@[d].data@.push(
                            old(self).columns@[slot_of(skinds, okinds[d])].data@[row as int],
                        )
                    } else {
                        old(other).columns@[d].data@
                    }),
            decreases n - s,
        {
            let id: ComponentId = self.columns[s].id;
            assert(id == skinds[s as int]);
            assert(old(self).columns@[s as int].data.wf());
            let ghost value = old(self).columns@[s as int].data@[row as int];
            proof {
                old(self).columns@[s as int].data.lemma_view();
                lemma_slot_of_unique(skinds, s as int);
                lemma_slot_of(okinds, id);
                assert forall|d: int| 0 <= d < m implies (slot_of(skinds, #[trigger] okinds[d])
                    == s) == (d == slot_of(okinds, id)) by {
                    lemma_slot_of(skinds, okinds[d]);
                    if okinds[d] == id {
                        lemma_slot_of_unique(okinds, d);
                    }
                }
            }
            match other.find(id) {
                Some(d) => {
                    proof {
                        lemma_slot_of_unique(okinds, d as int);
                        assert(okinds[d as int] == id);
                        assert(old(other).columns@[d as int].data.wf());
                        assert(old(self).column_layout(s as int).size == old(other).column_layout(
                            d as int,
                        ).size);
                    }
                    let bytes = self.columns[s].data.swap_remove(row);
                    other.columns[d].data.push(bytes.as_slice());
                },
                None => {
                    self.columns[s].data.swap_remove_and_drop(row);
                    proof {
                        assert(old(self).columns@[s as int].data.destructed() + seq![value]
                            =~= old(self).columns@[s as int].data.destructed().push(value));
                    }
                },
            }
            proof {
                assert(self.kinds() =~= skinds);
                assert(other.kinds() =~= okinds);
            }
            s += 1;
        }
        let mut d: usize = 0;
        while d < m
            invariant
                d <= m,
                n == self.columns@.len(),
                m == other.columns@.len(),
                m == old(other).columns@.len(),
                m == fill@.len(),
                new_row + 1 == held,
                new_row == old(other).entities@.len(),
                other.entities@ == old(other).entities@.push(entity),
                old(other).wf(),
                skinds == old(self).kinds(),
                okinds == old(other).kinds(),
                self.kinds() == skinds,
                other.kinds() == okinds,
                forall|k: int|
                    0 <= k < m ==> (#[trigger] fill@[k])@.len() == old(other).column_layout(k).size,
                forall|k: int|
                    0 <= k < m ==> {
                        &&& (#[trigger] other.columns@[k]).data.wf()
                        &&& other.columns@[k].data.layout() == old(other).columns@[k].data.layout()
                        &&& other.columns@[k].data.has_destructor() == old(
                            other,
                        ).columns@[k].data.has_destructor()
                        &&& other.columns@[k].data.destructed() == old(
                            other,
                        ).columns@[k].data.destructed()
                    },
                forall|k: int|
                    0 <= k < m ==> (#[trigger] other.columns@[k]).data@ == (if 0 <= slot_of(
                        skinds,
                        okinds[k],
                    ) {
                        old(other).columns@[k].data@.push(
                            old(self).columns@[slot_of(skinds, okinds[k])].data@[row as int],
                        )
                    } else if k < d {
                        old(other).columns@[k].data@.push(fill@[k]@)
                    } else {
                        old(other).columns@[k].data@
                    }),
            decreases m - d,
        {
            let id: ComponentId = other.columns[d].id;
            assert(id == okinds[d as int]);
            proof {
                lemma_slot_of(skinds, id);
                assert(old(other).columns@[d as int].data.wf());
            }
            if self.find(id).is_none() {
                other.columns[d].data.push(fill[d].as_slice());
            }
            proof {
                assert(other.kinds() =~= okinds);
            }
            d += 1;
        }
        self.entities.swap_remove(row);
        proof {
            assert forall|k: int| 0 <= k < self.columns@.len() implies (
            #[trigger] self.columns@[k]).data.wf() && self.columns@[k].data@.len()
                == self.entities@.len() by {
                assert(old(self).columns@[k].data.wf());
            }
            assert forall|k: int| 0 <= k < other.columns@.len() implies (
            #[trigger] other.columns@[k]).data.wf() && other.columns@[k].data@.len()
                == other.entities@.len() by {
                assert(old(other).columns@[k].data.wf());
                lemma_slot_of(skinds, okinds[k]);
            }
            assert forall|k: int| 0 <= k < m implies #[trigger] other.column(k) == old(
                other,
            ).column(k).push(old(self).moved_value(old(other), row as int, fill@, k)) by {
                lemma_slot_of(skinds, okinds[k]);
            }
        }
        let fixup: Option<Entity> = if row < self.entities.len() {
            Some(self.entities[row])
        } else {
            None
        };
        (new_row, fixup)
    }
}

/// After a row has moved from one table to another, the source has one row
/// fewer and the target one more; the new row of the target holds, for each
/// kind that both tables have, the bytes that the row held in the source;
/// and the entity that stood in the source's last row stands at `row`,
/// unless `row` was the last.
pub proof fn lemma_row_moved(
    from: &Table,
    to: &Table,
    source: &Table,
    target: &Table,
    row: int,
    fill: Seq<Vec<u8>>,
    moved: (usize, Option<Entity>),
)
    requires
        from.wf(),
        to.wf(),
        0 <= row < from.entities().len(),
        from.row_moved(to, source, target, row, fill, moved),
    ensures
        source.entities().len() == from.entities().len() - 1,
        target.entities().len() == to.entities().len() + 1,
        target.entities()[moved.0 as int] == from.entities()[row],
        forall|c: int, d: int|
            0 <= c < from.kinds().len() && 0 <= d < to.kinds().len() && from.kinds()[c]
                == to.kinds()[d] ==> (#[trigger] target.column(d))[moved.0 as int]
                == (#[trigger] from.column(c))[row],
        row < from.entities().len() - 1 ==> source.entities()[row] == from.entities().last()
            && moved.1 == Some(from.entities().last()),
{
    from.lemma_wf();
    to.lemma_wf();
    assert forall|c: int, d: int|
        0 <= c < from.kinds().len() && 0 <= d < to.kinds().len() && from.kinds()[c]
            == to.kinds()[d] implies (#[trigger] target.column(d))[moved.0 as int]
        == (#[trigger] from.column(c))[row] by {
        lemma_slot_of_unique(from.kinds(), c);
        assert(target.column(d) == to.column(d).push(from.moved_value(to, row, fill, d)));
        assert(to.column(d).len() == to.entities().len());
    }
}

/// A value that moves with its row to a table that has its kind is not
/// destructed, neither where it came from nor where it went.
pub proof fn lemma_moved_value_kept(
    from: &Table,
    to: &Table,
    source: &Table,
    target: &Table,
    row: int,
    fill: Seq<Vec<u8>>,
    moved: (usize, Option<Entity>),
    c: int,
    d: int,
)
    requires
        from.wf(),
        to.wf(),
        0 <= row < from.entities().len(),
        from.row_moved(to, source, target, row, fill, moved),
        0 <= c < from.kinds().len(),
        0 <= d < to.kinds().len(),
        from.kinds()[c] == to.kinds()[d],
    ensures
        source.column_destructed(c) == from.column_destructed(c),
        target.column_destructed(d) == to.column_destructed(d),
{
    from.lemma_wf();
    to.lemma_wf();
    lemma_slot_of_unique(to.kinds(), d);
    assert(target.column(d) == to.column(d).push(from.moved_value(to, row, fill, d)));
    assert(source.column(c) == from.column(c).update(row, from.column(c).last()).drop_last());
}

} // verus!

//! The reservation grid: for every cell the windows of time that vehicles
//! hold it for, with the test for a free window, the booking and the release.

use vstd::prelude::*;

verus! {

/// One reservation of a cell: the vehicle `vehicle_id` holds it from `start`
/// up to, not including, `end`.
#[derive(Clone, Copy, Debug, PartialEq, Eq, Structural)]
pub struct TimeSlot {
    pub start: i64,
    pub end: i64,
    pub vehicle_id: usize,
}

/// Whether the half-open windows `[start_a, end_a)` and `[start_b, end_b)` overlap.
pub open spec fn overlaps(start_a: i64, end_a: i64, start_b: i64, end_b: i64) -> bool {
    start_a < end_b && start_b < end_a
}

/// Whether some reservation among `slots` overlaps the window `[start, end)`.
pub open spec fn conflicts_with(slots: Seq<TimeSlot>, start: i64, end: i64) -> bool {
    exists|i: int|
        0 <= i < slots.len() && overlaps(start, end, (#[trigger] slots[i]).start, slots[i].end)
}

/// Whether no reservation among `slots` that belongs to a vehicle other than
/// `id` overlaps the window `[start, end)`.
pub open spec fn others_clear(slots: Seq<TimeSlot>, id: usize, start: i64, end: i64) -> bool {
    forall|m: int|
        0 <= m < slots.len() && (#[trigger] slots[m]).vehicle_id != id ==> !overlaps(
            start,
            end,
            slots[m].start,
            slots[m].end,
        )
}

/// Whether no two reservations among `slots` that belong to different
/// vehicles overlap.
pub open spec fn cell_conflict_free(slots: Seq<TimeSlot>) -> bool {
    forall|i: int, j: int|
        0 <= i < slots.len() && 0 <= j < slots.len() && (#[trigger] slots[i]).vehicle_id != (
        #[trigger] slots[j]).vehicle_id ==> !overlaps(
            slots[i].start,
            slots[i].end,
            slots[j].start,
            slots[j].end,
        )
}

/// The reservations that `id` does not own.
pub open spec fn not_owned_by(id: usize) -> spec_fn(TimeSlot) -> bool {
    |s: TimeSlot| s.vehicle_id != id
}

/// The reservations that `id` owns.
pub open spec fn owned_by(id: usize) -> spec_fn(TimeSlot) -> bool {
    |s: TimeSlot| s.vehicle_id == id
}

/// `times` copies of one reservation.
pub open spec fn repeated(slot: TimeSlot, times: nat) -> Seq<TimeSlot> {
    Seq::new(times, |k: int| slot)
}

/// Whether `slot` is in force at the instant `time`, both ends included.
pub open spec fn active_at(slot: TimeSlot, time: i64) -> bool {
    slot.start <= time <= slot.end
}

/// The reservations that are in force at `time`.
pub open spec fn active_now(time: i64) -> spec_fn(TimeSlot) -> bool {
    |s: TimeSlot| active_at(s, time)
}

/// The reservations that begin after `time`.
pub open spec fn begins_after(time: i64) -> spec_fn(TimeSlot) -> bool {
    |s: TimeSlot| s.start > time
}

/// How a cell stands at one instant.
#[derive(Clone, Copy, Debug, PartialEq, Eq, Structural)]
pub enum Occupancy {
    /// No reservation is in force.
    Free,
    /// One reservation is in force.
    Reserved,
    /// Several reservations are in force.
    Multiple,
}

/// How a cell with these reservations stands at `time`.
pub open spec fn spec_occupancy(slots: Seq<TimeSlot>, time: i64) -> Occupancy {
    let n = slots.filter(active_now(time)).len();
    if n == 0 {
        Occupancy::Free
    } else if n == 1 {
        Occupancy::Reserved
    } else {
        Occupancy::Multiple
    }
}

/// The vehicle of the first reservation, in the order in which they were
/// made, that is in force at `time`.
pub open spec fn spec_active_vehicle(slots: Seq<TimeSlot>, time: i64) -> Option<usize> {
    let active = slots.filter(active_now(time));
    if active.len() == 0 {
        None
    } else {
        Some(active[0].vehicle_id)
    }
}

/// The number of reservations in the first `n` cells.
pub open spec fn reservations_in(cells: Seq<Seq<TimeSlot>>, n: nat) -> nat
    decreases n,
{
    if n == 0 {
        0
    } else {
        reservations_in(cells, (n - 1) as nat) + cells[n - 1].len()
    }
}

/// The number of cells, among the first `n`, that hold a reservation which
/// passes `pred`.
pub open spec fn cells_holding(cells: Seq<Seq<TimeSlot>>, pred: spec_fn(TimeSlot) -> bool, n: nat)
    -> nat
    decreases n,
{
    if n == 0 {
        0
    } else {
        cells_holding(cells, pred, (n - 1) as nat) + (if cells[n - 1].filter(pred).len() > 0 {
            1nat
        } else {
            0nat
        })
    }
}

/// Figures on a grid at one instant.
#[derive(Clone, Copy, Debug, PartialEq, Eq, Structural)]
pub struct GridStats {
    pub total_cells: usize,
    /// Cells with a reservation in force.
    pub active_cells: usize,
    /// Cells with a reservation that begins later.
    pub future_reservations: usize,
    /// Reservations in all cells together.
    pub total_reservations: u128,
}

/// What a grid holds: for each cell, row after row, its reservations in the
/// order in which they were made.
pub struct GridView {
    pub cols: nat,
    pub rows: nat,
    pub cells: Seq<Seq<TimeSlot>>,
}

impl GridView {
    pub open spec fn wf(self) -> bool {
        self.cells.len() == self.cols * self.rows
    }

    /// A grid of `cols` by `rows` cells without reservations.
    pub open spec fn empty(cols: nat, rows: nat) -> GridView {
        GridView { cols, rows, cells: Seq::new(cols * rows, |i: int| Seq::<TimeSlot>::empty()) }
    }

    /// Whether `(column, row)` names a cell of the grid.
    pub open spec fn in_bounds(self, cell: (usize, usize)) -> bool {
        cell.0 < self.cols && cell.1 < self.rows
    }

    pub open spec fn index_of(self, cell: (usize, usize)) -> int {
        cell.1 * self.cols + cell.0
    }

    /// The reservations of a cell of the grid.
    pub open spec fn slots_at(self, cell: (usize, usize)) -> Seq<TimeSlot> {
        self.cells[self.index_of(cell)]
    }

    /// Whether every listed cell of the grid is free over `[start, end)`.
    /// Listed cells outside the grid do not count.
    pub open spec fn admits(self, cells: Seq<(usize, usize)>, start: i64, end: i64) -> bool {
        forall|k: int|
            0 <= k < cells.len() && self.in_bounds(#[trigger] cells[k]) ==> !conflicts_with(
                self.slots_at(cells[k]),
                start,
                end,
            )
    }

    /// Whether, in every listed cell of the grid, `[start, end)` is free of
    /// the reservations of vehicles other than `id`.
    pub open spec fn clear_of_others(
        self,
        id: usize,
        cells: Seq<(usize, usize)>,
        start: i64,
        end: i64,
    ) -> bool {
        forall|k: int|
            0 <= k < cells.len() && self.in_bounds(#[trigger] cells[k]) ==> others_clear(
                self.slots_at(cells[k]),
                id,
                start,
                end,
            )
    }

    /// Whether the list names the cell with index `idx`.
    pub open spec fn lists(self, cells: Seq<(usize, usize)>, idx: int) -> bool {
        exists|k: int|
            0 <= k < cells.len() && self.in_bounds(#[trigger] cells[k]) && self.index_of(cells[k])
                == idx
    }

    /// How often the list names the cell with index `idx`.
    pub open spec fn bookings(self, cells: Seq<(usize, usize)>, idx: int) -> nat
        decreases cells.len(),
    {
        if cells.len() == 0 {
            0
        } else {
            let before = self.bookings(cells.drop_last(), idx);
            if self.in_bounds(cells.last()) && self.index_of(cells.last()) == idx {
                before + 1
            } else {
                before
            }
        }
    }

    /// The grid after `id` has reserved `[start, end)` in the listed cells:
    /// each cell of the grid gains one reservation for each time the list
    /// names it, after those it had.
    pub open spec fn reserved(
        self,
        id: usize,
        cells: Seq<(usize, usize)>,
        start: i64,
        end: i64,
    ) -> GridView {
        GridView {
            cells: Seq::new(
                self.cells.len(),
                |idx: int|
                    self.cells[idx] + repeated(
                        TimeSlot { start, end, vehicle_id: id },
                        self.bookings(cells, idx),
                    ),
            ),
            ..self
        }
    }

    /// The grid after the reservations of `id` have been taken out of the
    /// listed cells; what other vehicles hold stays, in its order.
    pub open spec fn released(self, cells: Seq<(usize, usize)>, id: usize) -> GridView {
        GridView {
            cells: Seq::new(
                self.cells.len(),
                |idx: int|
                    if self.lists(cells, idx) {
                        self.cells[idx].filter(not_owned_by(id))
                    } else {
                        self.cells[idx]
                    },
            ),
            ..self
        }
    }

    /// The grid after every reservation of `id` has been taken out of every
    /// cell.
    pub open spec fn released_everywhere(self, id: usize) -> GridView {
        GridView {
            cells: Seq::new(self.cells.len(), |idx: int| self.cells[idx].filter(not_owned_by(id))),
            ..self
        }
    }

    /// No cell holds overlapping reservations of two different vehicles.
    pub open spec fn conflict_free(self) -> bool {
        forall|idx: int| 0 <= idx < self.cells.len() ==> cell_conflict_free(#[trigger] self.cells[idx])
    }

    /// A grid without reservations is free of conflicts.
    pub proof fn lemma_empty_conflict_free(cols: nat, rows: nat)
        ensures
            GridView::empty(cols, rows).conflict_free(),
            GridView::empty(cols, rows).wf(),
    {
    }

    /// In-bounds cells have an index inside the grid, and different cells
    /// have different indices.
    pub proof fn lemma_index_of(self, cell: (usize, usize))
        requires
            self.wf(),
            self.in_bounds(cell),
        ensures
            0 <= self.index_of(cell) < self.cells.len(),
            self.index_of(cell) % (self.cols as int) == cell.0,
            self.index_of(cell) / (self.cols as int) == cell.1,
    {
        let c = self.cols as int;
        let r = self.rows as int;
        let x = cell.0 as int;
        let y = cell.1 as int;
        assert(y * c + x < r * c) by (nonlinear_arith)
            requires
                0 <= x < c,
                0 <= y < r,
        ;
        assert(r * c == c * r) by (nonlinear_arith);
        assert(0 <= y * c) by (nonlinear_arith)
            requires
                0 <= y,
                0 <= c,
        ;
        vstd::arithmetic::div_mod::lemma_fundamental_div_mod_converse(y * c + x, c, y, x);
    }

    proof fn lemma_bookings_step(self, cells: Seq<(usize, usize)>, k: int, idx: int)
        requires
            0 <= k < cells.len(),
        ensures
            self.bookings(cells.take(k + 1), idx) == self.bookings(cells.take(k), idx) + (if self.in_bounds(
                cells[k],
            ) && self.index_of(cells[k]) == idx {
                1nat
            } else {
                0nat
            }),
    {
        assert(cells.take(k + 1).drop_last() =~= cells.take(k));
        assert(cells.take(k + 1).last() == cells[k]);
    }

    proof fn lemma_lists_step(self, cells: Seq<(usize, usize)>, k: int, idx: int)
        requires
            0 <= k < cells.len(),
        ensures
            self.lists(cells.take(k + 1), idx) == (self.lists(cells.take(k), idx) || (self.in_bounds(
                cells[k],
            ) && self.index_of(cells[k]) == idx)),
    {
        let a = cells.take(k + 1);
        let b = cells.take(k);
        if self.lists(a, idx) {
            let w = choose|w: int|
                0 <= w < a.len() && self.in_bounds(#[trigger] a[w]) && self.index_of(a[w]) == idx;
            if w < k {
                assert(b[w] == a[w]);
            }
        }
        if self.lists(b, idx) {
            let w = choose|w: int|
                0 <= w < b.len() && self.in_bounds(#[trigger] b[w]) && self.index_of(b[w]) == idx;
            assert(a[w] == b[w]);
        }
        if self.in_bounds(cells[k]) && self.index_of(cells[k]) == idx {
            assert(a[k] == cells[k]);
        }
    }

    /// A window that the grid admits is clear of every vehicle's reservations.
    pub proof fn lemma_admits_clear(self, id: usize, cells: Seq<(usize, usize)>, start: i64, end: i64)
        requires
            self.admits(cells, start, end),
        ensures
            self.clear_of_others(id, cells, start, end),
    {
        assert forall|k: int|
            0 <= k < cells.len() && self.in_bounds(#[trigger] cells[k]) implies others_clear(
            self.slots_at(cells[k]),
            id,
            start,
            end,
        ) by {
            assert(!conflicts_with(self.slots_at(cells[k]), start, end));
        }
    }

    /// What a vehicle reserves does not stand in the way of its own later
    /// reservations: a window clear of the others stays clear of them.
    pub proof fn lemma_reserved_keeps_clear(
        self,
        id: usize,
        booked: Seq<(usize, usize)>,
        booked_start: i64,
        booked_end: i64,
        cells: Seq<(usize, usize)>,
        start: i64,
        end: i64,
    )
        requires
            self.wf(),
            self.clear_of_others(id, cells, start, end),
        ensures
            self.reserved(id, booked, booked_start, booked_end).clear_of_others(
                id,
                cells,
                start,
                end,
            ),
    {
        let after = self.reserved(id, booked, booked_start, booked_end);
        assert forall|k: int|
            0 <= k < cells.len() && after.in_bounds(#[trigger] cells[k]) implies others_clear(
            after.slots_at(cells[k]),
            id,
            start,
            end,
        ) by {
            self.lemma_index_of(cells[k]);
            let before = self.slots_at(cells[k]);
            let now = after.slots_at(cells[k]);
            assert(others_clear(before, id, start, end));
            assert forall|m: int|
                0 <= m < now.len() && (#[trigger] now[m]).vehicle_id != id implies !overlaps(
                start,
                end,
                now[m].start,
                now[m].end,
            ) by {
                if m < before.len() {
                    assert(now[m] == before[m]);
                }
            }
        }
    }

    /// Reserving a window that is clear of the other vehicles' reservations
    /// keeps the grid free of conflicts.
    pub proof fn lemma_reserve_keeps_conflict_free(
        self,
        id: usize,
        cells: Seq<(usize, usize)>,
        start: i64,
        end: i64,
    )
        requires
            self.wf(),
            self.conflict_free(),
            self.clear_of_others(id, cells, start, end),
        ensures
            self.reserved(id, cells, start, end).conflict_free(),
    {
        let after = self.reserved(id, cells, start, end);
        let slot = TimeSlot { start, end, vehicle_id: id };
        assert forall|idx: int| 0 <= idx < after.cells.len() implies cell_conflict_free(
            #[trigger] after.cells[idx],
        ) by {
            let before = self.cells[idx];
            let now = after.cells[idx];
            let n = self.bookings(cells, idx);
            assert(now == before + repeated(slot, n));
            assert(cell_conflict_free(before));
            if n > 0 {
                self.lemma_bookings_lists(cells, idx);
                let k = choose|k: int|
                    0 <= k < cells.len() && self.in_bounds(#[trigger] cells[k]) && self.index_of(
                        cells[k],
                    ) == idx;
                assert(others_clear(self.slots_at(cells[k]), id, start, end));
                assert(self.slots_at(cells[k]) == before);
            }
            assert forall|i: int, j: int|
                0 <= i < now.len() && 0 <= j < now.len() && (#[trigger] now[i]).vehicle_id != (
                #[trigger] now[j]).vehicle_id implies !overlaps(
                now[i].start,
                now[i].end,
                now[j].start,
                now[j].end,
            ) by {
                if i < before.len() && j < before.len() {
                    assert(now[i] == before[i] && now[j] == before[j]);
                } else if i < before.len() {
                    assert(now[i] == before[i] && now[j] == slot);
                } else if j < before.len() {
                    assert(now[j] == before[j] && now[i] == slot);
                } else {
                    assert(now[i] == slot && now[j] == slot);
                }
            }
        }
    }

    proof fn lemma_bookings_lists(self, cells: Seq<(usize, usize)>, idx: int)
        ensures
            self.bookings(cells, idx) > 0 <==> self.lists(cells, idx),
        decreases cells.len(),
    {
        if cells.len() > 0 {
            let k = cells.len() - 1;
            assert(cells.take(k + 1) =~= cells);
            assert(cells.take(k) =~= cells.drop_last());
            self.lemma_bookings_lists(cells.drop_last(), idx);
            self.lemma_lists_step(cells, k, idx);
        }
    }

    /// Releasing keeps the grid free of conflicts.
    pub proof fn lemma_release_keeps_conflict_free(self, cells: Seq<(usize, usize)>, id: usize)
        requires
            self.conflict_free(),
        ensures
            self.released(cells, id).conflict_free(),
            self.released_everywhere(id).conflict_free(),
    {
        let after = self.released(cells, id);
        assert forall|idx: int| 0 <= idx < after.cells.len() implies cell_conflict_free(
            #[trigger] after.cells[idx],
        ) by {
            assert(cell_conflict_free(self.cells[idx]));
            lemma_filter_keeps_cell_conflict_free(self.cells[idx], id);
        }
        let all = self.released_everywhere(id);
        assert forall|idx: int| 0 <= idx < all.cells.len() implies cell_conflict_free(
            #[trigger] all.cells[idx],
        ) by {
            assert(cell_conflict_free(self.cells[idx]));
            lemma_filter_keeps_cell_conflict_free(self.cells[idx], id);
        }
    }

    /// Releasing everything a vehicle holds leaves it nothing, and leaves
    /// every other vehicle what it held.
    pub proof fn lemma_released_everywhere(self, id: usize, other: usize, idx: int)
        requires
            0 <= idx < self.cells.len(),
        ensures
            self.released_everywhere(id).cells[idx].filter(owned_by(id)).len() == 0,
            other != id ==> self.released_everywhere(id).cells[idx].filter(owned_by(other))
                == self.cells[idx].filter(owned_by(other)),
    {
        lemma_filter_excludes(self.cells[idx], not_owned_by(id), owned_by(id));
        if other != id {
            lemma_filter_refines(self.cells[idx], not_owned_by(id), owned_by(other));
        }
    }

    /// Releasing the cells of one vehicle removes no reservation of another:
    /// in every cell, what any other vehicle holds is, entry for entry and in
    /// the same order, what it held before.
    pub proof fn lemma_release_keeps_others(
        self,
        cells: Seq<(usize, usize)>,
        id: usize,
        other: usize,
        idx: int,
    )
        requires
            other != id,
            0 <= idx < self.cells.len(),
        ensures
            self.released(cells, id).cells[idx].filter(owned_by(other)) == self.cells[idx].filter(
                owned_by(other),
            ),
            self.released(cells, id).cells[idx].filter(not_owned_by(id)) == self.cells[idx].filter(
                not_owned_by(id),
            ),
    {
        lemma_filter_refines(self.cells[idx], not_owned_by(id), owned_by(other));
        lemma_filter_refines(self.cells[idx], not_owned_by(id), not_owned_by(id));
    }

    /// What the vehicle `id` holds: for each cell, row after row, its
    /// reservations in the order in which they were made.
    pub open spec fn holdings(self, id: usize) -> Seq<Seq<TimeSlot>> {
        Seq::new(self.cells.len(), |idx: int| self.cells[idx].filter(owned_by(id)))
    }

    /// A reservation made for one vehicle changes nothing of what another holds.
    pub proof fn lemma_reserve_keeps_others(
        self,
        id: usize,
        cells: Seq<(usize, usize)>,
        start: i64,
        end: i64,
        other: usize,
    )
        requires
            other != id,
        ensures
            self.reserved(id, cells, start, end).holdings(other) == self.holdings(other),
    {
        let after = self.reserved(id, cells, start, end);
        let slot = TimeSlot { start, end, vehicle_id: id };
        assert forall|idx: int| 0 <= idx < self.cells.len() implies after.cells[idx].filter(
            owned_by(other),
        ) == self.cells[idx].filter(owned_by(other)) by {
            let added = repeated(slot, self.bookings(cells, idx));
            Seq::filter_distributes_over_add(self.cells[idx], added, owned_by(other));
            added.lemma_all_neg_filter_empty(owned_by(other));
            assert(self.cells[idx].filter(owned_by(other)) + Seq::<TimeSlot>::empty()
                =~= self.cells[idx].filter(owned_by(other)));
        }
        assert(after.holdings(other) =~= self.holdings(other));
    }

    /// A reservation takes nothing away: what any vehicle held in a cell is
    /// still there, in its order, before whatever was booked.
    pub proof fn lemma_reserve_keeps_slots(
        self,
        id: usize,
        cells: Seq<(usize, usize)>,
        start: i64,
        end: i64,
        holder: usize,
        idx: int,
    )
        requires
            0 <= idx < self.cells.len(),
        ensures
            self.cells[idx].filter(owned_by(holder)).is_prefix_of(
                self.reserved(id, cells, start, end).cells[idx].filter(owned_by(holder)),
            ),
            self.cells[idx].is_prefix_of(self.reserved(id, cells, start, end).cells[idx]),
    {
        let slot = TimeSlot { start, end, vehicle_id: id };
        let added = repeated(slot, self.bookings(cells, idx));
        Seq::filter_distributes_over_add(self.cells[idx], added, owned_by(holder));
        let x = self.cells[idx].filter(owned_by(holder));
        assert(x =~= (x + added.filter(owned_by(holder))).subrange(0, x.len() as int));
        assert(self.cells[idx] =~= (self.cells[idx] + added).subrange(
            0,
            self.cells[idx].len() as int,
        ));
    }

    /// A release for one vehicle, of listed cells or of all, changes
    /// nothing of what another holds.
    pub proof fn lemma_release_keeps_holdings(self, cells: Seq<(usize, usize)>, id: usize, other: usize)
        requires
            other != id,
        ensures
            self.released(cells, id).holdings(other) == self.holdings(other),
            self.released_everywhere(id).holdings(other) == self.holdings(other),
    {
        assert forall|idx: int| 0 <= idx < self.cells.len() implies self.released(cells, id).cells[idx].filter(
            owned_by(other),
        ) == self.cells[idx].filter(owned_by(other)) && self.released_everywhere(id).cells[idx].filter(
            owned_by(other),
        ) == self.cells[idx].filter(owned_by(other)) by {
            self.lemma_release_keeps_others(cells, id, other, idx);
            self.lemma_released_everywhere(id, other, idx);
        }
        assert(self.released(cells, id).holdings(other) =~= self.holdings(other));
        assert(self.released_everywhere(id).holdings(other) =~= self.holdings(other));
    }

    /// Releasing takes out every reservation of the vehicle in the cells
    /// that the list names.
    pub proof fn lemma_release_clears_listed(self, cells: Seq<(usize, usize)>, id: usize, k: int)
        requires
            self.wf(),
            0 <= k < cells.len(),
            self.in_bounds(cells[k]),
        ensures
            self.released(cells, id).slots_at(cells[k]).filter(owned_by(id)).len() == 0,
    {
        self.lemma_index_of(cells[k]);
        let idx = self.index_of(cells[k]);
        assert(self.lists(cells, idx));
        lemma_filter_excludes(self.cells[idx], not_owned_by(id), owned_by(id));
    }
}

/// Taking one vehicle's reservations out of a cell that is free of
/// conflicts leaves it free of conflicts.
pub proof fn lemma_filter_keeps_cell_conflict_free(slots: Seq<TimeSlot>, id: usize)
    requires
        cell_conflict_free(slots),
    ensures
        cell_conflict_free(slots.filter(not_owned_by(id))),
{
    let now = slots.filter(not_owned_by(id));
    assert forall|i: int, j: int|
        0 <= i < now.len() && 0 <= j < now.len() && (#[trigger] now[i]).vehicle_id != (
        #[trigger] now[j]).vehicle_id implies !overlaps(
        now[i].start,
        now[i].end,
        now[j].start,
        now[j].end,
    ) by {
        assert(now.contains(now[i]));
        assert(now.contains(now[j]));
        slots.lemma_filter_contains_rev(not_owned_by(id), now[i]);
        slots.lemma_filter_contains_rev(not_owned_by(id), now[j]);
        let a = choose|a: int| 0 <= a < slots.len() && slots[a] == now[i];
        let b = choose|b: int| 0 <= b < slots.len() && slots[b] == now[j];
        assert(slots[a].vehicle_id != slots[b].vehicle_id);
    }
}

/// Filtering by `q` what `p` has let through is filtering by `q`, where
/// everything that passes `q` passes `p`.
pub proof fn lemma_filter_refines<A>(s: Seq<A>, p: spec_fn(A) -> bool, q: spec_fn(A) -> bool)
    requires
        forall|x: A| #[trigger] q(x) ==> p(x),
    ensures
        s.filter(p).filter(q) == s.filter(q),
    decreases s.len(),
{
    if s.len() == 0 {
        reveal(Seq::filter);
        assert(s.filter(p) =~= s);
    } else {
        let r = s.drop_last();
        let x = s.last();
        assert(s =~= r.push(x));
        lemma_filter_refines(r, p, q);
        r.lemma_filter_push(x, p);
        r.lemma_filter_push(x, q);
        r.filter(p).lemma_filter_push(x, q);
    }
}

/// Filtering by `q` what `p` has let through leaves nothing, where nothing
/// passes both.
pub proof fn lemma_filter_excludes<A>(s: Seq<A>, p: spec_fn(A) -> bool, q: spec_fn(A) -> bool)
    requires
        forall|x: A| #[trigger] q(x) ==> !p(x),
    ensures
        s.filter(p).filter(q).len() == 0,
    decreases s.len(),
{
    if s.len() == 0 {
        reveal(Seq::filter);
        assert(s.filter(p) =~= s);
    } else {
        let r = s.drop_last();
        let x = s.last();
        assert(s =~= r.push(x));
        lemma_filter_excludes(r, p, q);
        r.lemma_filter_push(x, p);
        r.filter(p).lemma_filter_push(x, q);
    }
}

/// The reservation grid laid over the intersection.
pub struct ReservationGrid {
    cols: usize,
    rows: usize,
    cells: Vec<Vec<TimeSlot>>,
}

impl View for ReservationGrid {
    type V = GridView;

    closed spec fn view(&self) -> GridView {
        GridView {
            cols: self.cols as nat,
            rows: self.rows as nat,
            cells: Seq::new(self.cells@.len(), |i: int| self.cells@[i]@),
        }
    }
}

/// Tells whether any reservation of the cell overlaps `[start, end)`.
pub fn conflict(slots: &Vec<TimeSlot>, start: i64, end: i64) -> (r: bool)
    ensures
        r == conflicts_with(slots@, start, end),
{
    let mut i: usize = 0;
    while i < slots.len()
        invariant
            i <= slots.len(),
            forall|k: int| 0 <= k < i ==> !overlaps(start, end, (#[trigger] slots@[k]).start, slots@[k].end),
        decreases slots.len() - i,
    {
        if start < slots[i].end && slots[i].start < end {
            return true;
        }
        i += 1;
    }
    false
}

/// The reservations among `slots` that `id` does not own, in their order.
pub fn without_vehicle(slots: &Vec<TimeSlot>, id: usize) -> (kept: Vec<TimeSlot>)
    ensures
        kept@ == slots@.filter(not_owned_by(id)),
{
    let mut kept: Vec<TimeSlot> = Vec::new();
    let mut i: usize = 0;
    proof {
        reveal(Seq::filter);
        assert(slots@.take(0) =~= Seq::<TimeSlot>::empty());
    }
    while i < slots.len()
        invariant
            i <= slots.len(),
            kept@ == slots@.take(i as int).filter(not_owned_by(id)),
        decreases slots.len() - i,
    {
        proof {
            assert(slots@.take(i + 1) =~= slots@.take(i as int).push(slots@[i as int]));
            slots@.take(i as int).lemma_filter_push(slots@[i as int], not_owned_by(id));
        }
        if slots[i].vehicle_id != id {
            kept.push(slots[i]);
        }
        i += 1;
    }
    proof {
        assert(slots@.take(slots@.len() as int) =~= slots@);
    }
    kept
}

/// The number of reservations among `slots` that pass the test: those in
/// force at `time`, or, where `later` is set, those that begin after `time`.
pub fn count_slots(slots: &Vec<TimeSlot>, time: i64, later: bool) -> (n: usize)
    ensures
        n == (if later {
            slots@.filter(begins_after(time)).len()
        } else {
            slots@.filter(active_now(time)).len()
        }),
{
    let ghost pred = if later {
        begins_after(time)
    } else {
        active_now(time)
    };
    let mut n: usize = 0;
    let mut i: usize = 0;
    proof {
        reveal(Seq::filter);
        assert(slots@.take(0) =~= Seq::<TimeSlot>::empty());
    }
    while i < slots.len()
        invariant
            i <= slots.len(),
            pred == (if later {
                begins_after(time)
            } else {
                active_now(time)
            }),
            n == slots@.take(i as int).filter(pred).len(),
            n <= i,
        decreases slots.len() - i,
    {
        proof {
            assert(slots@.take(i + 1) =~= slots@.take(i as int).push(slots@[i as int]));
            slots@.take(i as int).lemma_filter_push(slots@[i as int], pred);
        }
        let hit: bool = if later {
            slots[i].start > time
        } else {
            slots[i].start <= time && time <= slots[i].end
        };
        if hit {
            n += 1;
        }
        i += 1;
    }
    proof {
        assert(slots@.take(slots@.len() as int) =~= slots@);
    }
    n
}

/// How a cell with these reservations stands at `time`.
pub fn occupancy_of(slots: &Vec<TimeSlot>, time: i64) -> (r: Occupancy)
    ensures
        r == spec_occupancy(slots@, time),
{
    let active_count = count_slots(slots, time, false);
    if active_count == 0 {
        Occupancy::Free
    } else if active_count == 1 {
        Occupancy::Reserved
    } else {
        Occupancy::Multiple
    }
}

/// The vehicle whose reservation, the first of the cell's, is in force at `time`.
pub fn active_vehicle_of(slots: &Vec<TimeSlot>, time: i64) -> (r: Option<usize>)
    ensures
        r == spec_active_vehicle(slots@, time),
{
    let mut i: usize = 0;
    proof {
        reveal(Seq::filter);
        assert(slots@.take(0) =~= Seq::<TimeSlot>::empty());
    }
    while i < slots.len()
        invariant
            i <= slots.len(),
            slots@.take(i as int).filter(active_now(time)).len() == 0,
        decreases slots.len() - i,
    {
        proof {
            assert(slots@.take(i + 1) =~= slots@.take(i as int).push(slots@[i as int]));
            slots@.take(i as int).lemma_filter_push(slots@[i as int], active_now(time));
        }
        if slots[i].start <= time && time <= slots[i].end {
            proof {
                let head = slots@.take(i + 1);
                let tail = slots@.skip(i + 1);
                assert(slots@ =~= head + tail);
                Seq::filter_distributes_over_add(head, tail, active_now(time));
                assert(head.filter(active_now(time)) =~= seq![slots@[i as int]]);
            }
            return Some(slots[i].vehicle_id);
        }
        i += 1;
    }
    proof {
        assert(slots@.take(slots@.len() as int) =~= slots@);
    }
    None
}

impl ReservationGrid {
    /// The grid holds one list of reservations for each of its cells.
    #[verifier::type_invariant]
    pub open spec fn wf(&self) -> bool {
        self@.wf()
    }

    /// A grid of `cols` by `rows` cells, all free.
    pub fn new(cols: usize, rows: usize) -> (grid: ReservationGrid)
        requires
            cols * rows <= usize::MAX,
        ensures
            grid@ == GridView::empty(cols as nat, rows as nat),
    {
        let total: usize = cols * rows;
        let mut cells: Vec<Vec<TimeSlot>> = Vec::new();
        let mut i: usize = 0;
        while i < total
            invariant
                i <= total,
                cells@.len() == i,
                forall|k: int| 0 <= k < i ==> (#[trigger] cells@[k])@ == Seq::<TimeSlot>::empty(),
            decreases total - i,
        {
            cells.push(Vec::new());
            i += 1;
        }
        let grid = ReservationGrid { cols, rows, cells };
        assert(grid@.cells =~= GridView::empty(cols as nat, rows as nat).cells);
        grid
    }

    pub fn cols(&self) -> (r: usize)
        ensures
            r == self@.cols,
    {
        self.cols
    }

    pub fn rows(&self) -> (r: usize)
        ensures
            r == self@.rows,
    {
        self.rows
    }

    /// Position of a cell in the row-after-row order.
    pub fn cell_index(&self, col: usize, row: usize) -> (idx: usize)
        requires
            self@.in_bounds((col, row)),
        ensures
            idx == self@.index_of((col, row)),
            idx < self@.cells.len(),
    {
        proof {
            use_type_invariant(self);
            self@.lemma_index_of((col, row));
            assert(self@.index_of((col, row)) == row * self.cols + col);
            assert(self@.cells.len() == self.cells.len());
            assert(0 <= row * self.cols) by (nonlinear_arith)
                requires
                    0 <= row,
                    0 <= self.cols,
            ;
        }
        row * self.cols + col
    }

    /// The reservations of a cell, in the order in which they were made;
    /// none for a cell outside the grid.
    pub fn reservations(&self, col: usize, row: usize) -> (r: Vec<TimeSlot>)
        ensures
            r@ == (if self@.in_bounds((col, row)) {
                self@.slots_at((col, row))
            } else {
                Seq::<TimeSlot>::empty()
            }),
    {
        let mut r: Vec<TimeSlot> = Vec::new();
        if col >= self.cols || row >= self.rows {
            return r;
        }
        let idx = self.cell_index(col, row);
        let mut i: usize = 0;
        while i < self.cells[idx].len()
            invariant
                idx < self.cells@.len(),
                i <= self.cells@[idx as int]@.len(),
                r@ == self.cells@[idx as int]@.take(i as int),
            decreases self.cells@[idx as int]@.len() - i,
        {
            r.push(self.cells[idx][i]);
            proof {
                assert(self.cells@[idx as int]@.take(i + 1) =~= self.cells@[idx as int]@.take(i as int).push(
                    self.cells@[idx as int]@[i as int],
                ));
            }
            i += 1;
        }
        proof {
            assert(self.cells@[idx as int]@.take(i as int) =~= self.cells@[idx as int]@);
        }
        r
    }

    /// Tells whether every listed cell is free over `[start, end)`; cells
    /// outside the grid are passed over.
    pub fn can_reserve_cells(&self, cells: &Vec<(usize, usize)>, start_time: i64, end_time: i64) -> (r:
        bool)
        ensures
            r == self@.admits(cells@, start_time, end_time),
    {
        let mut k: usize = 0;
        while k < cells.len()
            invariant
                k <= cells.len(),
                forall|m: int|
                    0 <= m < k && self@.in_bounds(#[trigger] cells@[m]) ==> !conflicts_with(
                        self@.slots_at(cells@[m]),
                        start_time,
                        end_time,
                    ),
            decreases cells.len() - k,
        {
            let (col, row) = cells[k];
            if col < self.cols && row < self.rows {
                let idx = self.cell_index(col, row);
                if conflict(&self.cells[idx], start_time, end_time) {
                    return false;
                }
            }
            k += 1;
        }
        true
    }

    /// Books `[start, end)` for `vehicle_id` in every listed cell of the
    /// grid, once for each time the cell is listed. It does not look for
    /// conflicts: ask `can_reserve_cells` first.
    pub fn reserve_cells_for_vehicle(
        &mut self,
        vehicle_id: usize,
        cells: &Vec<(usize, usize)>,
        start_time: i64,
        end_time: i64,
    )
        ensures
            final(self)@ == old(self)@.reserved(vehicle_id, cells@, start_time, end_time),
            old(self)@.conflict_free() && old(self)@.clear_of_others(
                vehicle_id,
                cells@,
                start_time,
                end_time,
            ) ==> final(self)@.conflict_free(),
    {
        let ghost before = self@;
        let slot = TimeSlot { start: start_time, end: end_time, vehicle_id };
        let mut k: usize = 0;
        proof {
            use_type_invariant(&*self);
            assert(cells@.take(0) =~= Seq::<(usize, usize)>::empty());
            assert forall|j: int| 0 <= j < before.cells.len() implies before.cells[j]
                == #[trigger] before.reserved(vehicle_id, cells@.take(0), start_time, end_time).cells[j] by {
                assert(before.cells[j] + repeated(slot, 0) =~= before.cells[j]);
            }
            assert(self@.cells =~= before.reserved(
                vehicle_id,
                cells@.take(0),
                start_time,
                end_time,
            ).cells);
        }
        while k < cells.len()
            invariant
                k <= cells.len(),
                before.wf(),
                slot == (TimeSlot { start: start_time, end: end_time, vehicle_id }),
                self@ == before.reserved(vehicle_id, cells@.take(k as int), start_time, end_time),
            decreases cells.len() - k,
        {
            let ghost prev = self@;
            let (col, row) = cells[k];
            let ghost target = before.reserved(
                vehicle_id,
                cells@.take(k + 1),
                start_time,
                end_time,
            );
            if col < self.cols && row < self.rows {
                let idx = self.cell_index(col, row);
                self.cells[idx].push(slot);
                proof {
                    assert forall|j: int| 0 <= j < before.cells.len() implies self@.cells[j]
                        == #[trigger] target.cells[j] by {
                        before.lemma_bookings_step(cells@, k as int, j);
                        let n = before.bookings(cells@.take(k as int), j);
                        if j == idx {
                            assert(self@.cells[j] == prev.cells[j].push(slot));
                            assert((before.cells[j] + repeated(slot, n)).push(slot) =~= before.cells[j]
                                + repeated(slot, n + 1));
                        } else {
                            assert(self@.cells[j] == prev.cells[j]);
                        }
                    }
                    assert(self@.cells =~= target.cells);
                }
            } else {
                proof {
                    assert forall|j: int| 0 <= j < before.cells.len() implies self@.cells[j]
                        == #[trigger] target.cells[j] by {
                        before.lemma_bookings_step(cells@, k as int, j);
                    }
                    assert(self@.cells =~= target.cells);
                }
            }
            k += 1;
        }
        proof {
            assert(cells@.take(k as int) =~= cells@);
            if before.conflict_free() && before.clear_of_others(
                vehicle_id,
                cells@,
                start_time,
                end_time,
            ) {
                before.lemma_reserve_keeps_conflict_free(vehicle_id, cells@, start_time, end_time);
            }
        }
    }

    /// Takes every reservation of `vehicle_id` out of the listed cells,
    /// whatever its window; cells outside the grid are passed over.
    pub fn release_specific_cells(&mut self, cells: &Vec<(usize, usize)>, vehicle_id: usize)
        ensures
            final(self)@ == old(self)@.released(cells@, vehicle_id),
            old(self)@.conflict_free() ==> final(self)@.conflict_free(),
    {
        let ghost before = self@;
        let mut k: usize = 0;
        proof {
            use_type_invariant(&*self);
            assert(cells@.take(0) =~= Seq::<(usize, usize)>::empty());
            assert(self@.cells =~= before.released(cells@.take(0), vehicle_id).cells);
        }
        while k < cells.len()
            invariant
                k <= cells.len(),
                before.wf(),
                self@ == before.released(cells@.take(k as int), vehicle_id),
            decreases cells.len() - k,
        {
            let ghost prev = self@;
            let (col, row) = cells[k];
            let ghost target = before.released(cells@.take(k + 1), vehicle_id);
            if col < self.cols && row < self.rows {
                let idx = self.cell_index(col, row);
                let kept = without_vehicle(&self.cells[idx], vehicle_id);
                self.cells[idx] = kept;
                proof {
                    assert forall|j: int| 0 <= j < before.cells.len() implies self@.cells[j]
                        == #[trigger] target.cells[j] by {
                        before.lemma_lists_step(cells@, k as int, j);
                        if j == idx {
                            assert(self@.cells[j] == prev.cells[j].filter(not_owned_by(vehicle_id)));
                            lemma_filter_refines(
                                before.cells[j],
                                not_owned_by(vehicle_id),
                                not_owned_by(vehicle_id),
                            );
                        } else {
                            assert(self@.cells[j] == prev.cells[j]);
                        }
                    }
                    assert(self@.cells =~= target.cells);
                }
            } else {
                proof {
                    assert forall|j: int| 0 <= j < before.cells.len() implies self@.cells[j]
                        == #[trigger] target.cells[j] by {
                        before.lemma_lists_step(cells@, k as int, j);
                    }
                    assert(self@.cells =~= target.cells);
                }
            }
            k += 1;
        }
        proof {
            assert(cells@.take(k as int) =~= cells@);
            if before.conflict_free() {
                before.lemma_release_keeps_conflict_free(cells@, vehicle_id);
            }
        }
    }
    /// How the cell stands at `time`; `Free` for a cell outside the grid.
    pub fn occupancy(&self, col: usize, row: usize, time: i64) -> (r: Occupancy)
        ensures
            r == (if self@.in_bounds((col, row)) {
                spec_occupancy(self@.slots_at((col, row)), time)
            } else {
                Occupancy::Free
            }),
    {
        if col >= self.cols || row >= self.rows {
            return Occupancy::Free;
        }
        let idx = self.cell_index(col, row);
        occupancy_of(&self.cells[idx], time)
    }

    /// The vehicle that holds the cell at `time`: the owner of the first of
    /// the cell's reservations that is in force. `None` for a free cell and
    /// for a cell outside the grid.
    pub fn active_vehicle(&self, col: usize, row: usize, time: i64) -> (r: Option<usize>)
        ensures
            r == (if self@.in_bounds((col, row)) {
                spec_active_vehicle(self@.slots_at((col, row)), time)
            } else {
                None
            }),
    {
        if col >= self.cols || row >= self.rows {
            return None;
        }
        let idx = self.cell_index(col, row);
        active_vehicle_of(&self.cells[idx], time)
    }

    /// How every cell stands at `time`, row after row.
    pub fn occupancy_snapshot(&self, time: i64) -> (snapshot: Vec<Occupancy>)
        ensures
            snapshot@ == Seq::new(
                self@.cells.len(),
                |i: int| spec_occupancy(self@.cells[i], time),
            ),
    {
        let mut snapshot: Vec<Occupancy> = Vec::new();
        let mut i: usize = 0;
        while i < self.cells.len()
            invariant
                i <= self.cells@.len(),
                snapshot@.len() == i,
                forall|k: int|
                    0 <= k < i ==> #[trigger] snapshot@[k] == spec_occupancy(self@.cells[k], time),
            decreases self.cells@.len() - i,
        {
            snapshot.push(occupancy_of(&self.cells[i], time));
            i += 1;
        }
        proof {
            assert(snapshot@ =~= Seq::new(
                self@.cells.len(),
                |i: int| spec_occupancy(self@.cells[i], time),
            ));
        }
        snapshot
    }

    /// Figures on the grid at `time`.
    pub fn statistics(&self, time: i64) -> (stats: GridStats)
        ensures
            stats.total_cells == self@.cells.len(),
            stats.active_cells == cells_holding(self@.cells, active_now(time), self@.cells.len()),
            stats.future_reservations == cells_holding(
                self@.cells,
                begins_after(time),
                self@.cells.len(),
            ),
            stats.total_reservations == reservations_in(self@.cells, self@.cells.len()),
    {
        let mut active_cells: usize = 0;
        let mut future_reservations: usize = 0;
        let mut total_reservations: u128 = 0;
        let mut i: usize = 0;
        while i < self.cells.len()
            invariant
                i <= self.cells@.len(),
                active_cells == cells_holding(self@.cells, active_now(time), i as nat),
                future_reservations == cells_holding(self@.cells, begins_after(time), i as nat),
                total_reservations == reservations_in(self@.cells, i as nat),
                active_cells <= i,
                future_reservations <= i,
                total_reservations <= i * usize::MAX,
            decreases self.cells@.len() - i,
        {
            let has_active: bool = count_slots(&self.cells[i], time, false) > 0;
            let has_future: bool = count_slots(&self.cells[i], time, true) > 0;
            proof {
                assert(i * usize::MAX + usize::MAX == (i + 1) * usize::MAX) by (nonlinear_arith);
                assert((i + 1) * usize::MAX <= usize::MAX * usize::MAX) by (nonlinear_arith)
                    requires
                        i + 1 <= usize::MAX,
                ;
                assert(usize::MAX * usize::MAX <= 0xffff_ffff_ffff_ffff * 0xffff_ffff_ffff_ffff)
                    by (nonlinear_arith)
                    requires
                        usize::MAX <= 0xffff_ffff_ffff_ffff,
                ;
            }
            total_reservations = total_reservations + self.cells[i].len() as u128;
            if has_active {
                active_cells += 1;
            }
            if has_future {
                future_reservations += 1;
            }
            i += 1;
        }
        GridStats { total_cells: self.cells.len(), active_cells, future_reservations, total_reservations }
    }
    /// Takes every reservation of `vehicle_id` out of every cell.
    pub fn release_all_cells(&mut self, vehicle_id: usize)
        ensures
            final(self)@ == old(self)@.released_everywhere(vehicle_id),
            old(self)@.conflict_free() ==> final(self)@.conflict_free(),
    {
        let ghost before = self@;
        let mut idx: usize = 0;
        proof {
            use_type_invariant(&*self);
        }
        while idx < self.cells.len()
            invariant
                idx <= before.cells.len(),
                before.wf(),
                self@.cols == before.cols,
                self@.rows == before.rows,
                self@.cells.len() == before.cells.len(),
                forall|j: int|
                    0 <= j < idx ==> #[trigger] self@.cells[j] == before.cells[j].filter(
                        not_owned_by(vehicle_id),
                    ),
                forall|j: int| idx <= j < before.cells.len() ==> #[trigger] self@.cells[j] == before.cells[j],
            decreases before.cells.len() - idx,
        {
            let ghost prev = self@;
            let kept = without_vehicle(&self.cells[idx], vehicle_id);
            self.cells[idx] = kept;
            proof {
                assert forall|j: int| 0 <= j < before.cells.len() implies #[trigger] self@.cells[j]
                    == (if j == idx {
                    prev.cells[j].filter(not_owned_by(vehicle_id))
                } else {
                    prev.cells[j]
                }) by {}
            }
            idx += 1;
        }
        proof {
            assert(self@.cells =~= before.released_everywhere(vehicle_id).cells);
            if before.conflict_free() {
                before.lemma_release_keeps_conflict_free(Seq::empty(), vehicle_id);
            }
        }
    }
}

} // verus!

//! Adds up the time spent under each of a set of names.

use crate::time::elapsed;
use vstd::prelude::*;
use vstd::string::StringSliceAdditionalSpecFns;

verus! {

/// The time spent under one name, in nanoseconds, and the number of times
/// that more time was added after the first.
#[derive(Clone, Copy, Debug)]
pub struct Row {
    pub name: &'static str,
    pub time: u128,
    pub count: u128,
}

/// Two names are the same if they are spelled the same.
pub open spec fn same_name(a: &str, b: &str) -> bool {
    a.spec_bytes() == b.spec_bytes()
}

/// Whether one of `rows` goes by `name`.
pub open spec fn has_row(rows: Seq<Row>, name: &str) -> bool {
    exists|i: int| 0 <= i < rows.len() && same_name(#[trigger] rows[i].name, name)
}

/// The place of a row that goes by `name`.
pub open spec fn row_of(rows: Seq<Row>, name: &str) -> int {
    choose|i: int| 0 <= i < rows.len() && same_name(#[trigger] rows[i].name, name)
}

/// No two rows go by the same name.
pub open spec fn names_differ(rows: Seq<Row>) -> bool {
    forall|i: int, j: int|
        0 <= i < j < rows.len() ==> !same_name(#[trigger] rows[i].name, #[trigger] rows[j].name)
}

/// The rows once `time` was spent under `name`: its row grows by `time` and
/// counts once more, or a new row starts with `time` and a count of zero.
pub open spec fn rows_with(rows: Seq<Row>, name: &'static str, time: u128) -> Seq<Row> {
    if has_row(rows, name) {
        let i = row_of(rows, name);
        rows.update(
            i,
            Row {
                name: rows[i].name,
                time: (rows[i].time + time) as u128,
                count: (rows[i].count + 1) as u128,
            },
        )
    } else {
        rows.push(Row { name, time, count: 0 })
    }
}

/// Whether `time` can be added under `name` without leaving the range of the
/// counters.
pub open spec fn fits(rows: Seq<Row>, name: &str, time: u128) -> bool {
    has_row(rows, name) ==> rows[row_of(rows, name)].time + time <= u128::MAX && rows[row_of(
        rows,
        name,
    )].count < u128::MAX
}

/// The rows are in the order of their times, longest first.
pub open spec fn longest_first(rows: Seq<Row>) -> bool {
    forall|i: int, j: int|
        0 <= i < j < rows.len() ==> (#[trigger] rows[i]).time >= (#[trigger] rows[j]).time
}

/// Whether two names are spelled the same.
fn names_match(a: &str, b: &str) -> (same: bool)
    ensures
        same == same_name(a, b),
{
    let x = a.as_bytes();
    let y = b.as_bytes();
    if x.len() != y.len() {
        return false;
    }
    let mut i: usize = 0;
    while i < x.len()
        invariant
            i <= x@.len(),
            x@.len() == y@.len(),
            x@ == a.spec_bytes(),
            y@ == b.spec_bytes(),
            forall|j: int| 0 <= j < i ==> x@[j] == y@[j],
        decreases x@.len() - i,
    {
        if x[i] != y[i] {
            return false;
        }
        i = i + 1;
    }
    assert(x@ =~= y@);
    true
}

/// The time that each part of a program took, by name.
pub struct DebugTimer {
    data: Vec<Row>,
}

impl View for DebugTimer {
    type V = Seq<Row>;

    /// The rows, in the order in which their names first came up.
    closed spec fn view(&self) -> Seq<Row> {
        self.data@
    }
}

impl DebugTimer {
    /// No two rows go by the same name.
    pub closed spec fn wf(&self) -> bool {
        names_differ(self.data@)
    }

    /// A timer without rows.
    pub fn new() -> (timer: Self)
        ensures
            timer.wf(),
            timer@ == Seq::<Row>::empty(),
    {
        DebugTimer { data: Vec::with_capacity(50) }
    }

    /// Starts a measurement at `now`: the value to hand to `end`.
    pub fn start(&self, now: u128) -> (started: u128)
        ensures
            started == now,
    {
        now
    }

    /// Ends at `now` a measurement that started at `start`, and adds the
    /// time between the two under `name`.
    pub fn end(&mut self, name: &'static str, start: u128, now: u128)
        requires
            old(self).wf(),
            fits(old(self)@, name, elapsed(now, start)),
        ensures
            final(self).wf(),
            final(self)@ == rows_with(old(self)@, name, elapsed(now, start)),
    {
        let time: u128 = if now >= start {
            now - start
        } else {
            0
        };
        self.add(name, time);
    }

    /// Adds `time` under `name`.
    fn add(&mut self, name: &'static str, time: u128)
        requires
            old(self).wf(),
            fits(old(self)@, name, time),
        ensures
            final(self).wf(),
            final(self)@ == rows_with(old(self)@, name, time),
    {
        let ghost rows = self.data@;
        let mut i: usize = 0;
        while i < self.data.len()
            invariant
                i <= rows.len(),
                self.data@ == rows,
                rows == old(self)@,
                names_differ(rows),
                fits(rows, name, time),
                forall|j: int| 0 <= j < i ==> !same_name(#[trigger] rows[j].name, name),
            decreases rows.len() - i,
        {
            let row = self.data[i];
            if names_match(row.name, name) {
                proof {
                    assert(same_name(rows[i as int].name, name));
                    assert(has_row(rows, name));
                    let k = row_of(rows, name);
                    assert(k == i) by {
                        if k < i {
                            assert(!same_name(rows[k].name, name));
                        }
                        if i < k {
                            assert(!same_name(rows[i as int].name, rows[k].name));
                        }
                    }
                }
                self.data[i] = Row { name: row.name, time: row.time + time, count: row.count + 1 };
                proof {
                    assert(self.data@ =~= rows_with(rows, name, time));
                    assert forall|a: int, b: int| 0 <= a < b < self.data@.len() implies !same_name(
                        #[trigger] self.data@[a].name,
                        #[trigger] self.data@[b].name,
                    ) by {
                        assert(self.data@[a].name == rows[a].name);
                        assert(self.data@[b].name == rows[b].name);
                    }
                }
                return ;
            }
            i = i + 1;
        }
        self.data.push(Row { name, time, count: 0 });
    }

    /// Forgets every row.
    pub fn clear(&mut self)
        ensures
            final(self).wf(),
            final(self)@ == Seq::<Row>::empty(),
    {
        self.data.clear();
    }

    /// The rows, longest time first.
    pub fn rows_by_time(&self) -> (sorted: Vec<Row>)
        ensures
            longest_first(sorted@),
            sorted@.to_multiset() == self@.to_multiset(),
    {
        let mut sorted: Vec<Row> = Vec::new();
        let mut i: usize = 0;
        assert(self.data@.take(0) =~= sorted@);
        while i < self.data.len()
            invariant
                i <= self.data@.len(),
                longest_first(sorted@),
                sorted@.to_multiset() == self.data@.take(i as int).to_multiset(),
            decreases self.data@.len() - i,
        {
            let row = self.data[i];
            let mut at: usize = 0;
            while at < sorted.len() && sorted[at].time >= row.time
                invariant
                    at <= sorted@.len(),
                    forall|j: int| 0 <= j < at ==> (#[trigger] sorted@[j]).time >= row.time,
                decreases sorted@.len() - at,
            {
                at = at + 1;
            }
            let ghost before = sorted@;
            sorted.insert(at, row);
            proof {
                let after = sorted@;
                assert(after == before.insert(at as int, row));
                assert(after.remove(at as int) =~= before);
                vstd::seq_lib::to_multiset_remove(after, at as int);
                after.to_multiset_ensures();
                assert(after.to_multiset().count(row) > 0);
                assert(after.to_multiset() =~= before.to_multiset().insert(row));
                let grown = self.data@.take(i as int + 1);
                assert(grown =~= self.data@.take(i as int).push(row));
                vstd::seq_lib::to_multiset_build(self.data@.take(i as int), row);
            }
            i = i + 1;
        }
        assert(self.data@.take(i as int) =~= self.data@);
        sorted
    }
}

} // verus!

use vstd::prelude::*;
use vstd::seq_lib::lemma_multiset_commutative;

use crate::text::str_eq;

verus! {

/// A list of strings with every occurrence of `target` removed and the
/// order of the rest kept.
pub open spec fn without(list: Seq<Seq<char>>, target: Seq<char>) -> Seq<Seq<char>>
    decreases list.len(),
{
    if list.len() == 0 {
        Seq::empty()
    } else if list.last() == target {
        without(list.drop_last(), target)
    } else {
        without(list.drop_last(), target).push(list.last())
    }
}

/// An element survives `without` exactly when it stands in the list and
/// differs from the target; in particular no occurrence of the target
/// remains.
pub proof fn lemma_without_membership(list: Seq<Seq<char>>, target: Seq<char>)
    ensures
        forall|c: Seq<char>|
            #[trigger] without(list, target).contains(c) <==> (list.contains(c) && c != target),
    decreases list.len(),
{
    let out = without(list, target);
    if list.len() == 0 {
        assert(forall|c: Seq<char>| !(#[trigger] out.contains(c)));
        assert(forall|c: Seq<char>| !(#[trigger] list.contains(c)));
    } else {
        let pre = list.drop_last();
        let last = list.last();
        let rest = without(pre, target);
        lemma_without_membership(pre, target);
        assert forall|c: Seq<char>| #[trigger] list.contains(c) && c != target implies out.contains(
            c,
        ) by {
            if c == last {
                assert(out == rest.push(last));
                assert(out[out.len() - 1] == c);
            } else {
                let k = choose|k: int| 0 <= k < list.len() && list[k] == c;
                assert(pre[k] == c);
                assert(pre.contains(c));
                assert(rest.contains(c));
                let j = choose|j: int| 0 <= j < rest.len() && rest[j] == c;
                if last != target {
                    assert(out[j] == c);
                } else {
                    assert(out == rest);
                }
            }
        }
        assert forall|c: Seq<char>| #[trigger] out.contains(c) implies list.contains(c) && c
            != target by {
            if last == target {
                assert(out == rest);
                assert(pre.contains(c) && c != target);
                let k = choose|k: int| 0 <= k < pre.len() && pre[k] == c;
                assert(list[k] == c);
            } else {
                assert(out == rest.push(last));
                let j = choose|j: int| 0 <= j < out.len() && out[j] == c;
                if j == out.len() - 1 {
                    assert(c == last);
                    assert(list[list.len() - 1] == c);
                } else {
                    assert(rest[j] == c);
                    assert(rest.contains(c));
                    assert(pre.contains(c) && c != target);
                    let k = choose|k: int| 0 <= k < pre.len() && pre[k] == c;
                    assert(list[k] == c);
                }
            }
        }
    }
}

/// Removes every element equal to `target` from the vector, keeping the
/// order of the rest.
pub fn remove_matching(list: &mut Vec<String>, target: &str)
    ensures
        final(list).deep_view() == without(old(list).deep_view(), target@),
{
    let mut kept: Vec<String> = Vec::new();
    let n = list.len();
    let mut i: usize = 0;
    while i < n
        invariant
            0 <= i <= n == list@.len(),
            *list == *old(list),
            kept.deep_view() == without(old(list).deep_view().take(i as int), target@),
        decreases n - i,
    {
        let ghost pre = kept.deep_view();
        let entry = list[i].clone();
        if !str_eq(entry.as_str(), target) {
            kept.push(entry);
            proof {
                assert(kept.deep_view() =~= pre.push(list@[i as int]@));
            }
        }
        proof {
            let dv = old(list).deep_view();
            assert(dv.take(i + 1).drop_last() =~= dv.take(i as int));
            assert(dv.take(i + 1).last() == dv[i as int]);
            assert(dv[i as int] == list@[i as int]@);
        }
        i = i + 1;
    }
    proof {
        assert(old(list).deep_view().take(n as int) =~= old(list).deep_view());
    }
    *list = kept;
}

/// One row of the tasks table: a description and the persisted completion
/// flag. The application only ever stores pending tasks, but the column is
/// part of the schema.
pub struct TaskRow {
    pub description: String,
    pub completed: bool,
}

/// The description column of a run of task rows.
pub open spec fn descriptions_of(rows: Seq<TaskRow>) -> Seq<Seq<char>> {
    Seq::new(rows.len(), |i: int| rows[i].description@)
}

/// The task rows with every row whose description equals `target` removed;
/// the surviving rows keep their values - the completion flag included -
/// and their order.
pub open spec fn rows_without(rows: Seq<TaskRow>, target: Seq<char>) -> Seq<TaskRow>
    decreases rows.len(),
{
    if rows.len() == 0 {
        Seq::empty()
    } else if rows.last().description@ == target {
        rows_without(rows.drop_last(), target)
    } else {
        rows_without(rows.drop_last(), target).push(rows.last())
    }
}

/// Removing rows by description and then reading the description column
/// gives the same as removing from the description column itself.
pub proof fn lemma_rows_without_descriptions(rows: Seq<TaskRow>, target: Seq<char>)
    ensures
        descriptions_of(rows_without(rows, target)) == without(descriptions_of(rows), target),
    decreases rows.len(),
{
    if rows.len() == 0 {
        assert(descriptions_of(rows_without(rows, target)) =~= without(
            descriptions_of(rows),
            target,
        ));
    } else {
        let pre = rows.drop_last();
        let descs = descriptions_of(rows);
        lemma_rows_without_descriptions(pre, target);
        assert(descs.drop_last() =~= descriptions_of(pre));
        assert(descs.last() == rows.last().description@);
        if rows.last().description@ != target {
            assert(descriptions_of(rows_without(pre, target).push(rows.last())) =~= descriptions_of(
                rows_without(pre, target),
            ).push(rows.last().description@));
        }
    }
}

/// An in-memory model of the storage layer: the notes table, the tasks
/// table, and the budget table of income/expense pairs in hundredths.
/// Opening the real database creates the tables when absent, so a fresh
/// store is empty.
pub struct Store {
    pub notes: Vec<String>,
    pub tasks: Vec<TaskRow>,
    pub budget_rows: Vec<(i64, i64)>,
}

impl Store {
    /// The note contents, in insertion order.
    pub open spec fn note_contents(self) -> Seq<Seq<char>> {
        self.notes.deep_view()
    }

    /// The task descriptions, in insertion order.
    pub open spec fn task_descriptions(self) -> Seq<Seq<char>> {
        descriptions_of(self.tasks@)
    }

    pub fn new() -> (st: Store)
        ensures
            st.note_contents() == Seq::<Seq<char>>::empty(),
            st.task_descriptions() == Seq::<Seq<char>>::empty(),
            st.budget_rows@ == Seq::<(i64, i64)>::empty(),
    {
        let st = Store { notes: Vec::new(), tasks: Vec::new(), budget_rows: Vec::new() };
        proof {
            assert(st.note_contents() =~= Seq::<Seq<char>>::empty());
            assert(st.task_descriptions() =~= Seq::<Seq<char>>::empty());
        }
        st
    }

    /// Appends a note row; duplicates are allowed.
    pub fn insert_note(&mut self, content: &str)
        ensures
            final(self).note_contents() == old(self).note_contents().push(content@),
            final(self).tasks == old(self).tasks,
            final(self).budget_rows == old(self).budget_rows,
    {
        self.notes.push(content.to_owned());
        proof {
            assert(self.note_contents() =~= old(self).note_contents().push(content@));
        }
    }

    /// Appends a task row with the given flag, leaving every row already
    /// present as it was; duplicates are allowed.
    pub fn insert_task(&mut self, description: &str, completed: bool)
        ensures
            final(self).task_descriptions() == old(self).task_descriptions().push(description@),
            final(self).tasks@.len() == old(self).tasks@.len() + 1,
            final(self).tasks@.drop_last() == old(self).tasks@,
            final(self).tasks@.last().description@ == description@,
            final(self).tasks@.last().completed == completed,
            final(self).notes == old(self).notes,
            final(self).budget_rows == old(self).budget_rows,
    {
        self.tasks.push(TaskRow { description: description.to_owned(), completed });
        proof {
            assert(self.task_descriptions() =~= old(self).task_descriptions().push(description@));
            assert(self.tasks@.drop_last() =~= old(self).tasks@);
        }
    }

    /// Deletes every note row whose content equals the given text exactly.
    pub fn delete_note(&mut self, content: &str)
        ensures
            final(self).note_contents() == without(old(self).note_contents(), content@),
            final(self).tasks == old(self).tasks,
            final(self).budget_rows == old(self).budget_rows,
    {
        remove_matching(&mut self.notes, content);
    }

    /// Deletes every task row whose description equals the given text
    /// exactly, whatever its completion flag; the surviving rows keep their
    /// values, flags included, and their order.
    pub fn delete_task(&mut self, description: &str)
        ensures
            final(self).tasks@ == rows_without(old(self).tasks@, description@),
            final(self).task_descriptions() == without(old(self).task_descriptions(), description@),
            final(self).notes == old(self).notes,
            final(self).budget_rows == old(self).budget_rows,
    {
        let mut kept: Vec<TaskRow> = Vec::new();
        let n = self.tasks.len();
        let mut i: usize = 0;
        while i < n
            invariant
                0 <= i <= n == self.tasks@.len(),
                self.tasks == old(self).tasks,
                self.notes == old(self).notes,
                self.budget_rows == old(self).budget_rows,
                kept@ == rows_without(old(self).tasks@.take(i as int), description@),
            decreases n - i,
        {
            let row = TaskRow {
                description: self.tasks[i].description.clone(),
                completed: self.tasks[i].completed,
            };
            assert(row == old(self).tasks@[i as int]);
            if !str_eq(row.description.as_str(), description) {
                kept.push(row);
            }
            proof {
                let rows = old(self).tasks@;
                assert(rows.take(i + 1).drop_last() =~= rows.take(i as int));
                assert(rows.take(i + 1).last() == rows[i as int]);
            }
            i = i + 1;
        }
        proof {
            assert(old(self).tasks@.take(n as int) =~= old(self).tasks@);
        }
        self.tasks = kept;
        proof {
            lemma_rows_without_descriptions(old(self).tasks@, description@);
        }
    }

    /// Every note content, in table order.
    pub fn load_notes(&self) -> (r: Vec<String>)
        ensures
            r.deep_view() == self.note_contents(),
    {
        let mut out: Vec<String> = Vec::new();
        let n = self.notes.len();
        let mut i: usize = 0;
        while i < n
            invariant
                0 <= i <= n == self.notes@.len(),
                out.deep_view() == self.note_contents().take(i as int),
            decreases n - i,
        {
            let ghost pre = out.deep_view();
            out.push(self.notes[i].clone());
            proof {
                assert(out.deep_view() =~= pre.push(self.notes@[i as int]@));
                let dv = self.note_contents();
                assert(dv.take(i + 1) =~= dv.take(i as int).push(dv[i as int]));
            }
            i = i + 1;
        }
        proof {
            assert(self.note_contents().take(n as int) =~= self.note_contents());
        }
        out
    }

    /// Every task description, in table order.
    pub fn load_tasks(&self) -> (r: Vec<String>)
        ensures
            r.deep_view() == self.task_descriptions(),
    {
        let mut out: Vec<String> = Vec::new();
        let n = self.tasks.len();
        let mut i: usize = 0;
        while i < n
            invariant
                0 <= i <= n == self.tasks@.len(),
                out.deep_view() == self.task_descriptions().take(i as int),
            decreases n - i,
        {
            let ghost pre = out.deep_view();
            out.push(self.tasks[i].description.clone());
            proof {
                assert(out.deep_view() =~= pre.push(self.tasks@[i as int].description@));
                let dv = self.task_descriptions();
                assert(dv.take(i + 1) =~= dv.take(i as int).push(dv[i as int]));
            }
            i = i + 1;
        }
        proof {
            assert(self.task_descriptions().take(n as int) =~= self.task_descriptions());
        }
        out
    }

    /// The first budget row, or zero totals when the table is empty.
    pub fn load_budget(&self) -> (r: (i64, i64))
        ensures
            self.budget_rows@.len() == 0 ==> r == (0i64, 0i64),
            self.budget_rows@.len() > 0 ==> r == self.budget_rows@[0],
    {
        if self.budget_rows.len() > 0 {
            self.budget_rows[0]
        } else {
            (0, 0)
        }
    }
}

/// The note contents after saving each element of `saved` in turn.
pub open spec fn notes_after_saves(notes: Seq<Seq<char>>, saved: Seq<Seq<char>>) -> Seq<Seq<char>>
    decreases saved.len(),
{
    if saved.len() == 0 {
        notes
    } else {
        notes_after_saves(notes.push(saved[0]), saved.skip(1))
    }
}

/// Law: saving a run of note contents and then loading yields the earlier
/// contents followed by exactly the saved ones - the same count and the
/// same multiset of strings, whatever order a real table scan reports.
pub proof fn lemma_notes_round_trip(notes: Seq<Seq<char>>, saved: Seq<Seq<char>>)
    ensures
        notes_after_saves(notes, saved) == notes + saved,
        notes_after_saves(notes, saved).len() == notes.len() + saved.len(),
        notes_after_saves(notes, saved).to_multiset() == notes.to_multiset().add(
            saved.to_multiset(),
        ),
    decreases saved.len(),
{
    if saved.len() == 0 {
        assert(notes + saved =~= notes);
    } else {
        lemma_notes_round_trip(notes.push(saved[0]), saved.skip(1));
        assert(notes.push(saved[0]) + saved.skip(1) =~= notes + saved);
    }
    lemma_multiset_commutative(notes, saved);
}

} // verus!

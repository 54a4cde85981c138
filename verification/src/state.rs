use vstd::prelude::*;

use crate::amount::amount_of;
use crate::amount::parse_amount;
use crate::budget::fits_i64;
use crate::store::remove_matching;
use crate::store::without;
use crate::text::all_space;
use crate::text::is_blank;
use crate::text::trim_of;

verus! {

/// The in-memory application state: the loaded note and task lists, the
/// three pending input buffers, and the budget totals with their derived
/// balance, all amounts in hundredths.
pub struct AppState {
    pub note_input: String,
    pub task_input: String,
    pub budget_input: String,
    pub notes: Vec<String>,
    pub tasks: Vec<String>,
    pub income: i64,
    pub expenses: i64,
    pub balance: i64,
}

impl AppState {
    /// The balance is derived: it equals income minus expenses after every
    /// mutation.
    pub open spec fn wf(self) -> bool {
        self.balance == self.income - self.expenses
    }

    /// The startup state built from the loaded rows: empty input buffers and
    /// a balance derived from the loaded totals.
    pub fn from_loaded(notes: Vec<String>, tasks: Vec<String>, income: i64, expenses: i64) -> (st:
        AppState)
        requires
            fits_i64(income - expenses),
        ensures
            st.notes == notes,
            st.tasks == tasks,
            st.income == income,
            st.expenses == expenses,
            st.balance == income - expenses,
            st.note_input@ == Seq::<char>::empty(),
            st.task_input@ == Seq::<char>::empty(),
            st.budget_input@ == Seq::<char>::empty(),
            st.wf(),
    {
        let balance = income - expenses;
        AppState {
            note_input: String::new(),
            task_input: String::new(),
            budget_input: String::new(),
            notes,
            tasks,
            income,
            expenses,
            balance,
        }
    }

    /// Submits the pending note text. A blank input - empty or whitespace
    /// only - leaves everything unchanged and persists nothing. Otherwise
    /// the text is appended to the notes, the buffer is cleared, and the
    /// text to persist is returned.
    pub fn add_note(&mut self) -> (saved: Option<String>)
        ensures
            old(self).wf() ==> final(self).wf(),
            all_space(old(self).note_input@) ==> *final(self) == *old(self) && saved is None,
            !all_space(old(self).note_input@) ==> {
                &&& final(self).notes.deep_view() == old(self).notes.deep_view().push(
                    old(self).note_input@,
                )
                &&& final(self).note_input@ == Seq::<char>::empty()
                &&& saved matches Some(c) && c@ == old(self).note_input@
                &&& final(self).task_input == old(self).task_input
                &&& final(self).budget_input == old(self).budget_input
                &&& final(self).tasks == old(self).tasks
                &&& final(self).income == old(self).income
                &&& final(self).expenses == old(self).expenses
                &&& final(self).balance == old(self).balance
            },
    {
        if is_blank(self.note_input.as_str()) {
            return None;
        }
        let content = self.note_input.clone();
        self.notes.push(self.note_input.clone());
        self.note_input = String::new();
        proof {
            assert(self.notes.deep_view() =~= old(self).notes.deep_view().push(
                old(self).note_input@,
            ));
        }
        Some(content)
    }

    /// Submits the pending task text. A blank input leaves everything
    /// unchanged and persists nothing. Otherwise the description is appended
    /// to the tasks, the buffer is cleared, and the description to persist
    /// is returned; a new task is always persisted as not completed.
    pub fn add_task(&mut self) -> (saved: Option<String>)
        ensures
            old(self).wf() ==> final(self).wf(),
            all_space(old(self).task_input@) ==> *final(self) == *old(self) && saved is None,
            !all_space(old(self).task_input@) ==> {
                &&& final(self).tasks.deep_view() == old(self).tasks.deep_view().push(
                    old(self).task_input@,
                )
                &&& final(self).task_input@ == Seq::<char>::empty()
                &&& saved matches Some(c) && c@ == old(self).task_input@
                &&& final(self).note_input == old(self).note_input
                &&& final(self).budget_input == old(self).budget_input
                &&& final(self).notes == old(self).notes
                &&& final(self).income == old(self).income
                &&& final(self).expenses == old(self).expenses
                &&& final(self).balance == old(self).balance
            },
    {
        if is_blank(self.task_input.as_str()) {
            return None;
        }
        let description = self.task_input.clone();
        self.tasks.push(self.task_input.clone());
        self.task_input = String::new();
        proof {
            assert(self.tasks.deep_view() =~= old(self).tasks.deep_view().push(
                old(self).task_input@,
            ));
        }
        Some(description)
    }

    /// Applies the pending budget entry as income. An input that does not
    /// parse as an amount leaves everything - the buffer included -
    /// unchanged, and so does an amount whose addition would take a total
    /// outside the representable range. Otherwise income rises by the
    /// amount, the balance is recomputed, and the buffer is cleared.
    pub fn add_income(&mut self)
        requires
            old(self).wf(),
        ensures
            final(self).wf(),
            match amount_of(trim_of(old(self).budget_input@)) {
                None => *final(self) == *old(self),
                Some(v) => if fits_i64(old(self).income + v) && fits_i64(
                    old(self).income + v - old(self).expenses,
                ) {
                    &&& final(self).income == old(self).income + v
                    &&& final(self).expenses == old(self).expenses
                    &&& final(self).balance == old(self).income + v - old(self).expenses
                    &&& final(self).budget_input@ == Seq::<char>::empty()
                    &&& final(self).note_input == old(self).note_input
                    &&& final(self).task_input == old(self).task_input
                    &&& final(self).notes == old(self).notes
                    &&& final(self).tasks == old(self).tasks
                } else {
                    *final(self) == *old(self)
                },
            },
    {
        let parsed = parse_amount(self.budget_input.as_str());
        if let Some(v) = parsed {
            let fits_income: bool = if v >= 0 {
                self.income <= i64::MAX - v
            } else {
                self.income >= i64::MIN - v
            };
            if fits_income {
                let next_income = self.income + v;
                let fits_balance: bool = if self.expenses >= 0 {
                    next_income >= i64::MIN + self.expenses
                } else {
                    next_income <= i64::MAX + self.expenses
                };
                if fits_balance {
                    self.income = next_income;
                    self.balance = next_income - self.expenses;
                    self.budget_input = String::new();
                }
            }
        }
    }

    /// Applies the pending budget entry as an expense, with the same
    /// validation and no-op cases as for income. On success expenses rise by
    /// the amount, the balance is recomputed, and the buffer is cleared.
    pub fn add_expense(&mut self)
        requires
            old(self).wf(),
        ensures
            final(self).wf(),
            match amount_of(trim_of(old(self).budget_input@)) {
                None => *final(self) == *old(self),
                Some(v) => if fits_i64(old(self).expenses + v) && fits_i64(
                    old(self).income - (old(self).expenses + v),
                ) {
                    &&& final(self).expenses == old(self).expenses + v
                    &&& final(self).income == old(self).income
                    &&& final(self).balance == old(self).income - (old(self).expenses + v)
                    &&& final(self).budget_input@ == Seq::<char>::empty()
                    &&& final(self).note_input == old(self).note_input
                    &&& final(self).task_input == old(self).task_input
                    &&& final(self).notes == old(self).notes
                    &&& final(self).tasks == old(self).tasks
                } else {
                    *final(self) == *old(self)
                },
            },
    {
        let parsed = parse_amount(self.budget_input.as_str());
        if let Some(v) = parsed {
            let fits_expenses: bool = if v >= 0 {
                self.expenses <= i64::MAX - v
            } else {
                self.expenses >= i64::MIN - v
            };
            if fits_expenses {
                let next_expenses = self.expenses + v;
                let fits_balance: bool = if next_expenses >= 0 {
                    self.income >= i64::MIN + next_expenses
                } else {
                    self.income <= i64::MAX + next_expenses
                };
                if fits_balance {
                    self.expenses = next_expenses;
                    self.balance = self.income - next_expenses;
                    self.budget_input = String::new();
                }
            }
        }
    }

    /// Removes every note whose text equals the given content exactly:
    /// duplicates all go at once, matching the storage deletion.
    pub fn delete_note(&mut self, content: &str)
        ensures
            old(self).wf() ==> final(self).wf(),
            final(self).notes.deep_view() == without(old(self).notes.deep_view(), content@),
            final(self).note_input == old(self).note_input,
            final(self).task_input == old(self).task_input,
            final(self).budget_input == old(self).budget_input,
            final(self).tasks == old(self).tasks,
            final(self).income == old(self).income,
            final(self).expenses == old(self).expenses,
            final(self).balance == old(self).balance,
    {
        remove_matching(&mut self.notes, content);
    }

    /// Removes every task whose description equals the given text exactly:
    /// duplicates all go at once, matching the storage deletion.
    pub fn delete_task(&mut self, description: &str)
        ensures
            old(self).wf() ==> final(self).wf(),
            final(self).tasks.deep_view() == without(old(self).tasks.deep_view(), description@),
            final(self).note_input == old(self).note_input,
            final(self).task_input == old(self).task_input,
            final(self).budget_input == old(self).budget_input,
            final(self).notes == old(self).notes,
            final(self).income == old(self).income,
            final(self).expenses == old(self).expenses,
            final(self).balance == old(self).balance,
    {
        remove_matching(&mut self.tasks, description);
    }
}

} // verus!

use vstd::prelude::*;

verus! {

/// Whether a mathematical value is representable as a signed amount.
pub open spec fn fits_i64(v: int) -> bool {
    i64::MIN <= v <= i64::MAX
}

/// Running income and expense totals, each a fixed-point count of hundredths.
pub struct Budget {
    pub income: i64,
    pub expenses: i64,
}

impl Budget {
    pub fn new() -> (b: Budget)
        ensures
            b.income == 0,
            b.expenses == 0,
    {
        Budget { income: 0, expenses: 0 }
    }

    pub fn add_income(&mut self, amount: i64)
        requires
            fits_i64(old(self).income + amount),
        ensures
            final(self).income == old(self).income + amount,
            final(self).expenses == old(self).expenses,
    {
        self.income = self.income + amount;
    }

    pub fn add_expense(&mut self, amount: i64)
        requires
            fits_i64(old(self).expenses + amount),
        ensures
            final(self).expenses == old(self).expenses + amount,
            final(self).income == old(self).income,
    {
        self.expenses = self.expenses + amount;
    }

    pub fn balance(&self) -> (r: i64)
        requires
            fits_i64(self.income - self.expenses),
        ensures
            r == self.income - self.expenses,
    {
        self.income - self.expenses
    }

    /// Applies one recorded operation, as the two handlers above do.
    pub fn apply_op(&mut self, op: &BudgetOp)
        requires
            match *op {
                BudgetOp::Income(a) => fits_i64(old(self).income + a),
                BudgetOp::Expense(a) => fits_i64(old(self).expenses + a),
            },
        ensures
            (final(self).income as int, final(self).expenses as int) == run_ops(
                old(self).income as int,
                old(self).expenses as int,
                seq![*op],
            ),
    {
        match *op {
            BudgetOp::Income(a) => self.add_income(a),
            BudgetOp::Expense(a) => self.add_expense(a),
        }
        proof {
            let ops = seq![*op];
            assert(ops.len() == 1);
            assert(ops.last() == *op);
            assert(ops.drop_last().len() == 0);
            assert(run_ops(old(self).income as int, old(self).expenses as int, ops.drop_last())
                == (old(self).income as int, old(self).expenses as int));
        }
    }
}

/// One budget mutation: an amount added to income or to expenses.
#[derive(Clone, Copy)]
pub enum BudgetOp {
    Income(i64),
    Expense(i64),
}

/// The sum of the amounts the operations add to income.
pub open spec fn total_income(ops: Seq<BudgetOp>) -> int
    decreases ops.len(),
{
    if ops.len() == 0 {
        0
    } else {
        total_income(ops.drop_last()) + match ops.last() {
            BudgetOp::Income(a) => a as int,
            BudgetOp::Expense(_) => 0,
        }
    }
}

/// The sum of the amounts the operations add to expenses.
pub open spec fn total_expense(ops: Seq<BudgetOp>) -> int
    decreases ops.len(),
{
    if ops.len() == 0 {
        0
    } else {
        total_expense(ops.drop_last()) + match ops.last() {
            BudgetOp::Income(_) => 0,
            BudgetOp::Expense(a) => a as int,
        }
    }
}

/// The totals reached by running the operations in order from a start.
pub open spec fn run_ops(income: int, expenses: int, ops: Seq<BudgetOp>) -> (int, int)
    decreases ops.len(),
{
    if ops.len() == 0 {
        (income, expenses)
    } else {
        let p = run_ops(income, expenses, ops.drop_last());
        match ops.last() {
            BudgetOp::Income(a) => (p.0 + a, p.1),
            BudgetOp::Expense(a) => (p.0, p.1 + a),
        }
    }
}

/// Law: after any sequence of add-income and add-expense operations, the
/// balance - income minus expenses - equals the starting balance plus the
/// sum of the incomes added minus the sum of the expenses added.
pub proof fn lemma_balance_after_ops(income: int, expenses: int, ops: Seq<BudgetOp>)
    ensures
        run_ops(income, expenses, ops).0 - run_ops(income, expenses, ops).1 == income - expenses
            + total_income(ops) - total_expense(ops),
    decreases ops.len(),
{
    if ops.len() > 0 {
        lemma_balance_after_ops(income, expenses, ops.drop_last());
    }
}

} // verus!

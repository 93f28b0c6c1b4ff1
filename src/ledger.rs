//! The account: a running balance, an append-only history, and its statement.
use vstd::prelude::*;
use vstd::string::StringExecFns;
use crate::date::{chrono_dmy, dmy_text, lemma_dmy_single_line, DateService, UtcDate};
use crate::text::{
    append_int, int_text, lemma_int_text_single_line, lemma_newline_count_concat,
    lemma_single_line_count, newline_count, single_line,
};

verus! {

/// One recorded operation: its date, its amount, and the balance after it.
#[derive(Clone, Copy, Debug, PartialEq, Eq, Structural)]
pub enum Transaction {
    Deposit(UtcDate, i32, i32),
    Withdraw(UtcDate, i32, i32),
}

/// The date a transaction was stamped with.
pub open spec fn date_of(t: Transaction) -> UtcDate {
    match t {
        Transaction::Deposit(d, _, _) => d,
        Transaction::Withdraw(d, _, _) => d,
    }
}

/// What a transaction adds to the balance: a withdrawal counts negated.
pub open spec fn signed_amount(t: Transaction) -> int {
    match t {
        Transaction::Deposit(_, a, _) => a as int,
        Transaction::Withdraw(_, a, _) => -(a as int),
    }
}

/// The balance recorded in a transaction, as it stood right after it.
pub open spec fn resulting_balance(t: Transaction) -> int {
    match t {
        Transaction::Deposit(_, _, b) => b as int,
        Transaction::Withdraw(_, _, b) => b as int,
    }
}

/// The sum of the signed amounts of `h`: deposits minus withdrawals.
pub open spec fn net(h: Seq<Transaction>) -> int
    decreases h.len(),
{
    if h.len() == 0 {
        0
    } else {
        net(h.drop_last()) + signed_amount(h.last())
    }
}

/// Each transaction records the running total of `h` up to and including it.
pub open spec fn running_totals(h: Seq<Transaction>) -> bool {
    forall|i: int| 0 <= i < h.len() ==> #[trigger] resulting_balance(h[i]) == net(h.take(i + 1))
}

/// The separator between the columns of a statement.
pub open spec fn column_separator() -> Seq<char> {
    seq![' ', '|', ' ']
}

/// The first line of every statement.
pub open spec fn header_text() -> Seq<char> {
    "Date | Amount | Balance"@
}

/// One line of a statement: date, signed amount, balance after.
pub open spec fn row_text(t: Transaction) -> Seq<char> {
    dmy_text(date_of(t)) + column_separator() + int_text(signed_amount(t)) + column_separator()
        + int_text(resulting_balance(t))
}

/// The lines of `h`, newest first, each ended by a newline.
pub open spec fn statement_rows(h: Seq<Transaction>) -> Seq<char>
    decreases h.len(),
{
    if h.len() == 0 {
        Seq::empty()
    } else {
        row_text(h.last()) + seq!['\n'] + statement_rows(h.drop_last())
    }
}

/// The sum of the amounts of the deposits in `h`.
pub open spec fn deposit_total(h: Seq<Transaction>) -> int
    decreases h.len(),
{
    if h.len() == 0 {
        0
    } else {
        deposit_total(h.drop_last()) + match h.last() {
            Transaction::Deposit(_, a, _) => a as int,
            Transaction::Withdraw(_, _, _) => 0,
        }
    }
}

/// The sum of the amounts of the withdrawals in `h`.
pub open spec fn withdrawal_total(h: Seq<Transaction>) -> int
    decreases h.len(),
{
    if h.len() == 0 {
        0
    } else {
        withdrawal_total(h.drop_last()) + match h.last() {
            Transaction::Deposit(_, _, _) => 0,
            Transaction::Withdraw(_, a, _) => a as int,
        }
    }
}

/// The net of a history is what was deposited minus what was withdrawn.
pub proof fn lemma_net_is_deposits_minus_withdrawals(h: Seq<Transaction>)
    ensures
        net(h) == deposit_total(h) - withdrawal_total(h),
    decreases h.len(),
{
    if h.len() > 0 {
        lemma_net_is_deposits_minus_withdrawals(h.drop_last());
    }
}

/// A statement row is a single line.
pub proof fn lemma_row_single_line(t: Transaction)
    ensures
        single_line(row_text(t)),
{
    lemma_dmy_single_line(date_of(t));
    lemma_int_text_single_line(signed_amount(t));
    lemma_int_text_single_line(resulting_balance(t));
}

/// The rows of a history hold one newline per transaction.
pub proof fn lemma_statement_rows_count(h: Seq<Transaction>)
    ensures
        newline_count(statement_rows(h)) == h.len(),
    decreases h.len(),
{
    if h.len() > 0 {
        let r = row_text(h.last());
        lemma_row_single_line(h.last());
        lemma_single_line_count(r);
        lemma_statement_rows_count(h.drop_last());
        lemma_newline_count_concat(r, seq!['\n']);
        lemma_newline_count_concat(r + seq!['\n'], statement_rows(h.drop_last()));
        assert(newline_count(seq!['\n']) == 1) by {
            assert(seq!['\n'].drop_last() =~= Seq::<char>::empty());
            assert(newline_count(Seq::<char>::empty()) == 0);
        }
    }
}

/// The statement of a history: the header, a newline, and the rows.
pub open spec fn statement_text(h: Seq<Transaction>) -> Seq<char> {
    header_text() + seq!['\n'] + statement_rows(h)
}

/// A statement has one line per transaction after its header line.
pub proof fn lemma_statement_line_count(h: Seq<Transaction>)
    ensures
        newline_count(statement_text(h)) == h.len() + 1,
{
    reveal_strlit("Date | Amount | Balance");
    lemma_single_line_count(header_text());
    lemma_statement_rows_count(h);
    lemma_newline_count_concat(seq!['\n'], statement_rows(h));
    assert(newline_count(seq!['\n']) == 1) by {
        assert(seq!['\n'].drop_last() =~= Seq::<char>::empty());
        assert(newline_count(Seq::<char>::empty()) == 0);
    }
    assert(statement_text(h) =~= header_text() + (seq!['\n'] + statement_rows(h)));
    lemma_newline_count_concat(header_text(), seq!['\n'] + statement_rows(h));
}

/// The latest transaction's row comes first, followed by the earlier rows
/// in the order they already had.
pub proof fn lemma_statement_newest_first(h: Seq<Transaction>, t: Transaction)
    ensures
        statement_rows(h.push(t)) == row_text(t) + seq!['\n'] + statement_rows(h),
{
    assert(h.push(t).drop_last() =~= h);
}

/// Whether two histories come from the same calls: the same kinds of
/// operation, with the same amounts, stamped with the same dates.
pub open spec fn same_calls(h1: Seq<Transaction>, h2: Seq<Transaction>) -> bool {
    &&& h1.len() == h2.len()
    &&& forall|k: int|
        0 <= k < h1.len() ==> {
            &&& #[trigger] date_of(h1[k]) == date_of(h2[k])
            &&& signed_amount(h1[k]) == signed_amount(h2[k])
            &&& (h1[k] is Deposit) == (h2[k] is Deposit)
        }
}

proof fn lemma_same_calls_same_net(h1: Seq<Transaction>, h2: Seq<Transaction>, i: int)
    requires
        same_calls(h1, h2),
        0 <= i <= h1.len(),
    ensures
        net(h1.take(i)) == net(h2.take(i)),
    decreases i,
{
    if i > 0 {
        lemma_same_calls_same_net(h1, h2, i - 1);
        assert(h1.take(i).drop_last() =~= h1.take(i - 1));
        assert(h2.take(i).drop_last() =~= h2.take(i - 1));
        assert(date_of(h1[i - 1]) == date_of(h2[i - 1]));
    }
}

/// Two histories built by the same calls, with the same dates set before
/// them, are equal, and so are their statements: neither the date a service
/// started with nor anything else but the calls has a say.
pub proof fn lemma_same_calls_same_statement(h1: Seq<Transaction>, h2: Seq<Transaction>)
    requires
        running_totals(h1),
        running_totals(h2),
        same_calls(h1, h2),
    ensures
        h1 == h2,
        statement_text(h1) == statement_text(h2),
{
    assert forall|k: int| 0 <= k < h1.len() implies h1[k] == h2[k] by {
        lemma_same_calls_same_net(h1, h2, k + 1);
        assert(resulting_balance(h1[k]) == resulting_balance(h2[k]));
        assert(date_of(h1[k]) == date_of(h2[k]));
    }
    assert(h1 =~= h2);
}

/// A single account, stamping each operation with its date service's date.
/// The account holds its date service; `date_service_mut` sets its date
/// between operations.
pub struct AccountService {
    date_service: DateService,
    balance: i32,
    transactions: Vec<Transaction>,
}

impl AccountService {
    pub closed spec fn balance(&self) -> int {
        self.balance as int
    }

    pub closed spec fn history(&self) -> Seq<Transaction> {
        self.transactions@
    }

    pub closed spec fn clock(&self) -> DateService {
        self.date_service
    }

    /// The balance is the net of the history, and each transaction records
    /// the running total at its place.
    pub open spec fn wf(&self) -> bool {
        &&& self.balance() == net(self.history())
        &&& running_totals(self.history())
    }

    /// An account with balance 0 and no history, dated by `date_service`.
    pub fn new(date_service: DateService) -> (r: AccountService)
        ensures
            r.wf(),
            r.balance() == 0,
            r.history() == Seq::<Transaction>::empty(),
            r.clock() == date_service,
    {
        AccountService { date_service, balance: 0, transactions: Vec::new() }
    }

    /// The service that dates this account's operations.
    pub fn date_service(&self) -> (r: &DateService)
        ensures
            *r == self.clock(),
    {
        &self.date_service
    }

    /// The service that dates this account's operations, to set its date.
    pub fn date_service_mut(&mut self) -> (r: &mut DateService)
        ensures
            *r == old(self).clock(),
            final(self).clock() == *final(r),
            final(self).balance() == old(self).balance(),
            final(self).history() == old(self).history(),
    {
        &mut self.date_service
    }

    /// Adds `amount` to the balance and records a deposit stamped with the
    /// current date. Any amount is taken, zero and negative ones too; the new
    /// balance must fit in an `i32`.
    pub fn deposit(&mut self, amount: i32)
        requires
            old(self).wf(),
            i32::MIN <= old(self).balance() + amount <= i32::MAX,
        ensures
            final(self).wf(),
            final(self).balance() == old(self).balance() + amount,
            final(self).history() == old(self).history().push(
                Transaction::Deposit(old(self).clock().today(), amount, final(self).balance() as i32),
            ),
            final(self).clock() == old(self).clock(),
    {
        let ghost h = self.transactions@;
        self.balance = self.balance + amount;
        let t = Transaction::Deposit(self.date_service.get(), amount, self.balance);
        self.transactions.push(t);
        proof { self.lemma_push_keeps_totals(h, t); }
    }

    /// Takes `amount` from the balance, which may go below zero, and records
    /// a withdrawal stamped with the current date. Any amount is taken; the
    /// new balance must fit in an `i32`.
    pub fn withdraw(&mut self, amount: i32)
        requires
            old(self).wf(),
            i32::MIN <= old(self).balance() - amount <= i32::MAX,
        ensures
            final(self).wf(),
            final(self).balance() == old(self).balance() - amount,
            final(self).history() == old(self).history().push(
                Transaction::Withdraw(old(self).clock().today(), amount, final(self).balance() as i32),
            ),
            final(self).clock() == old(self).clock(),
    {
        let ghost h = self.transactions@;
        self.balance = self.balance - amount;
        let t = Transaction::Withdraw(self.date_service.get(), amount, self.balance);
        self.transactions.push(t);
        proof { self.lemma_push_keeps_totals(h, t); }
    }

    proof fn lemma_push_keeps_totals(&self, h: Seq<Transaction>, t: Transaction)
        requires
            running_totals(h),
            self.history() == h.push(t),
            resulting_balance(t) == net(h) + signed_amount(t),
            self.balance() == resulting_balance(t),
        ensures
            self.wf(),
    {
        let g = h.push(t);
        assert(g.drop_last() =~= h);
        assert(g.take(g.len() as int) =~= g);
        assert forall|i: int| 0 <= i < g.len() implies #[trigger] resulting_balance(g[i]) == net(
            g.take(i + 1),
        ) by {
            if i < h.len() {
                assert(g.take(i + 1) =~= h.take(i + 1));
            }
        }
    }

    /// The balance is the sum of the deposited amounts minus the sum of the
    /// withdrawn amounts, over every call so far.
    pub proof fn lemma_balance_is_deposits_minus_withdrawals(&self)
        requires
            self.wf(),
        ensures
            self.balance() == deposit_total(self.history()) - withdrawal_total(self.history()),
    {
        lemma_net_is_deposits_minus_withdrawals(self.history());
    }

    /// The latest transaction records the balance as it stands now.
    pub proof fn lemma_latest_records_balance(&self)
        requires
            self.wf(),
            self.history().len() > 0,
        ensures
            resulting_balance(self.history().last()) == self.balance(),
    {
        let h = self.history();
        assert(h.take(h.len() as int) =~= h);
        assert(resulting_balance(h[h.len() - 1]) == net(h.take(h.len() - 1 + 1)));
    }

    /// The current balance.
    pub fn get_balance(&self) -> (r: i32)
        ensures
            r == self.balance(),
    {
        self.balance
    }

    /// The header line, then one line per transaction, newest first, each
    /// line ended by a newline.
    pub fn get_statement(&self) -> (r: String)
        ensures
            r@ == statement_text(self.history()),
    {
        let ghost h = self.transactions@;
        let mut out = String::from_str("Date | Amount | Balance\n");
        proof {
            reveal_strlit("Date | Amount | Balance\n");
            reveal_strlit("Date | Amount | Balance");
            assert(out@ =~= header_text() + seq!['\n']);
            assert(h.take(h.len() as int) =~= h);
        }
        let mut i: usize = self.transactions.len();
        while i > 0
            invariant
                h == self.transactions@,
                i <= h.len(),
                out@ + statement_rows(h.take(i as int)) == statement_text(h),
            decreases i,
        {
            let row = format_transaction(&self.transactions[i - 1]);
            let ghost before = out@;
            out.append(row.as_str());
            out.append("\n");
            proof {
                reveal_strlit("\n");
                let p = h.take(i as int);
                assert(p.drop_last() =~= h.take(i - 1));
                assert(p.last() == h[i - 1]);
                assert(statement_rows(p) == row_text(p.last()) + seq!['\n'] + statement_rows(
                    p.drop_last(),
                ));
                assert(out@ + statement_rows(h.take(i - 1)) =~= before + statement_rows(p));
            }
            i = i - 1;
        }
        proof {
            assert(out@ + statement_rows(h.take(0)) =~= out@);
        }
        out
    }
}

/// One line of the statement, without its newline.
fn format_transaction(t: &Transaction) -> (r: String)
    ensures
        r@ == row_text(*t),
{
    proof { reveal_strlit(" | "); }
    let (date, shown, after): (UtcDate, i64, i32) = match t {
        Transaction::Deposit(d, a, b) => (*d, *a as i64, *b),
        Transaction::Withdraw(d, a, b) => (*d, -(*a as i64), *b),
    };
    let mut r = chrono_dmy(date);
    r.append(" | ");
    append_int(&mut r, shown);
    r.append(" | ");
    append_int(&mut r, after as i64);
    assert(r@ =~= row_text(*t));
    r
}

} // verus!

//! A single-account ledger: deposits and withdrawals stamped with a
//! settable current date, a running balance, and a newest-first statement.

mod date;
mod ledger;
mod text;

pub use date::{
    days_in_month, dmy_text, is_leap_year, is_valid_ymd, iso_utc_text, year_text, DateService,
    UtcDate, MAX_YEAR, MIN_YEAR,
};
pub use ledger::{
    column_separator, date_of, deposit_total, header_text, lemma_net_is_deposits_minus_withdrawals,
    lemma_same_calls_same_statement, lemma_statement_line_count, lemma_statement_newest_first, net, resulting_balance, row_text,
    running_totals, same_calls, signed_amount, statement_rows, statement_text, withdrawal_total,
    AccountService, Transaction,
};
pub use text::{int_text, nat_text, newline_count, single_line, zero_padded};

use bank_account::{AccountService, DateService, UtcDate};

fn date(y: i32, m: u32, d: u32) -> UtcDate {
    UtcDate::from_ymd(y, m, d).unwrap()
}

#[test]
fn new_balance_is_0() {
    let ds = DateService::new();

    let a = AccountService::new(ds);

    assert_eq!(0, a.get_balance());
}

#[test]
fn deposit_100() {
    let ds = DateService::new();
    let mut a = AccountService::new(ds);

    a.deposit(100);

    assert_eq!(100, a.get_balance());
}

#[test]
fn withdraw_100() {
    let ds = DateService::new();
    let mut a = AccountService::new(ds);

    a.withdraw(100);

    assert_eq!(-100, a.get_balance());
}

#[test]
fn print_statement_with_single_transaction() {
    let ds = DateService::new();
    let mut a = AccountService::new(ds);

    a.date_service_mut().set_today(date(2012, 1, 10));
    a.deposit(1000);

    let statement = a.get_statement();
    assert_eq!(
        "Date | Amount | Balance\n10/01/2012 | 1000 | 1000\n",
        statement
    )
}

#[test]
fn acceptance_test() {
    let ds = DateService::new();
    let mut a = AccountService::new(ds);

    a.date_service_mut().set_today(date(2012, 1, 10));
    a.deposit(1000);

    a.date_service_mut().set_today(date(2012, 1, 13));
    a.deposit(2000);

    a.date_service_mut().set_today(date(2012, 1, 14));
    a.withdraw(500);

    let statement = a.get_statement();
    assert_eq!(
        [
            "Date | Amount | Balance",
            "14/01/2012 | -500 | 2500",
            "13/01/2012 | 2000 | 3000",
            "10/01/2012 | 1000 | 1000"
        ]
        .join("\n")
            + "\n",
        statement
    )
}

#[test]
fn empty_statement_is_header_only() {
    let a = AccountService::new(DateService::new());
    assert_eq!("Date | Amount | Balance\n", a.get_statement());
}

#[test]
fn balance_is_deposits_minus_withdrawals() {
    let mut a = AccountService::new(DateService::new());
    a.deposit(250);
    a.withdraw(40);
    a.deposit(15);
    a.withdraw(300);
    assert_eq!(250 - 40 + 15 - 300, a.get_balance());
}

#[test]
fn latest_row_holds_current_balance() {
    let mut a = AccountService::new(DateService::new());
    a.date_service_mut().set_today(date(2020, 6, 1));
    a.deposit(70);
    a.withdraw(20);
    let balance = a.get_balance();
    let statement = a.get_statement();
    let latest = statement.lines().nth(1).unwrap();
    assert_eq!(format!("01/06/2020 | -20 | {}", balance), latest);
}

#[test]
fn one_row_per_call_newest_first() {
    let mut a = AccountService::new(DateService::new());
    a.date_service_mut().set_today(date(2021, 3, 4));
    a.deposit(1);
    a.deposit(2);
    a.withdraw(3);
    a.deposit(4);
    let statement = a.get_statement();
    let rows: Vec<&str> = statement.lines().skip(1).collect();
    assert_eq!(
        vec![
            "04/03/2021 | 4 | 4",
            "04/03/2021 | -3 | 0",
            "04/03/2021 | 2 | 3",
            "04/03/2021 | 1 | 1",
        ],
        rows
    );
}

#[test]
fn reads_are_repeatable() {
    let mut a = AccountService::new(DateService::new());
    a.date_service_mut().set_today(date(2019, 12, 31));
    a.deposit(5);
    assert_eq!(a.get_statement(), a.get_statement());
    assert_eq!(a.get_balance(), a.get_balance());
}

#[test]
fn clock_set_backwards_keeps_call_order() {
    let mut a = AccountService::new(DateService::new());
    a.date_service_mut().set_today(date(2012, 1, 14));
    a.deposit(10);
    a.date_service_mut().set_today(date(1999, 7, 2));
    a.withdraw(3);
    assert_eq!(
        "Date | Amount | Balance\n02/07/1999 | -3 | 7\n14/01/2012 | 10 | 10\n",
        a.get_statement()
    );
}

#[test]
fn stamped_with_the_date_set() {
    let mut a = AccountService::new(DateService::new());
    a.date_service_mut().set_today(date(2001, 9, 8));
    a.withdraw(12);
    assert_eq!(date(2001, 9, 8), a.date_service().get());
    assert_eq!(
        "Date | Amount | Balance\n08/09/2001 | -12 | -12\n",
        a.get_statement()
    );
}

#[test]
fn extreme_amounts_render_in_full() {
    let mut a = AccountService::new(DateService::new());
    a.date_service_mut().set_today(date(2012, 1, 10));
    a.deposit(-1);
    a.withdraw(i32::MIN);
    assert_eq!(i32::MAX, a.get_balance());
    assert_eq!(
        "Date | Amount | Balance\n10/01/2012 | 2147483648 | 2147483647\n10/01/2012 | -1 | -1\n",
        a.get_statement()
    );
}

#[test]
fn zero_amounts_are_recorded() {
    let mut a = AccountService::new(DateService::new());
    a.date_service_mut().set_today(date(2012, 1, 10));
    a.deposit(0);
    a.withdraw(0);
    assert_eq!(
        "Date | Amount | Balance\n10/01/2012 | 0 | 0\n10/01/2012 | 0 | 0\n",
        a.get_statement()
    );
}

#[test]
fn statement_dates_outside_four_digit_years() {
    let mut a = AccountService::new(DateService::new());
    a.date_service_mut().set_today(date(12345, 6, 7));
    a.deposit(1);
    a.date_service_mut().set_today(date(-5, 11, 20));
    a.deposit(2);
    a.date_service_mut().set_today(date(999, 3, 7));
    a.deposit(3);
    assert_eq!(
        "Date | Amount | Balance\n07/03/0999 | 3 | 6\n20/11/-0005 | 2 | 3\n07/06/+12345 | 1 | 1\n",
        a.get_statement()
    );
}

#[test]
fn starting_date_has_no_say_in_the_statement() {
    let mut a = AccountService::new(DateService::new());
    let mut b = AccountService::new(DateService::with_today(date(1980, 2, 2)));
    for acc in [&mut a, &mut b] {
        acc.date_service_mut().set_today(date(2012, 1, 10));
        acc.deposit(1000);
        acc.date_service_mut().set_today(date(2012, 1, 14));
        acc.withdraw(500);
    }
    assert_eq!(a.get_statement(), b.get_statement());
    assert_eq!(
        "Date | Amount | Balance\n14/01/2012 | -500 | 500\n10/01/2012 | 1000 | 1000\n",
        a.get_statement()
    );
}

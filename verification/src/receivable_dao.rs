//! The receivable book: who owes this node and how much. The SQL store is
//! reached only through trusted wrappers; every decision about what the
//! store's answers mean is verified code.

use vstd::prelude::*;

use rusqlite::OptionalExtension;

use crate::accountant::ReceivableAccount;
use crate::fmt::append_str;
use crate::wallet::Wallet;

verus! {

use vstd::string::StringExecFns;

#[verifier::external_type_specification]
#[verifier::external_body]
pub struct ExConnection(rusqlite::Connection);

/// Relies on `rusqlite::Connection::execute` with an UPDATE statement: adds
/// `amount` to the named wallet's balance and reports how many rows that
/// touched, or the database's error text.
#[verifier::external_body]
fn sql_update_balance(conn: &rusqlite::Connection, amount: i64, address: &str) -> (r: Result<
    usize,
    String,
>) {
    conn.execute(
        "update receivable set balance = balance + ?1 where wallet_address = ?2",
        (amount, address),
    ).map_err(|e| format!("{}", e))
}

/// Relies on `rusqlite::Connection::execute` with an INSERT statement: adds
/// a fresh row for the named wallet, or reports the database's error text.
#[verifier::external_body]
fn sql_insert_account(conn: &rusqlite::Connection, address: &str, amount: i64, timestamp: i64) -> (r:
    Result<(), String>) {
    match conn.execute(
        "insert into receivable (wallet_address, balance, last_received_timestamp) values (?1, ?2, ?3)",
        (address, amount, timestamp),
    ) {
        Ok(_) => Ok(()),
        Err(e) => Err(format!("{}", e)),
    }
}

/// Relies on `rusqlite::Connection::query_row`: reads the named wallet's
/// balance and timestamp if its row exists, or reports the database's
/// error text.
#[verifier::external_body]
fn sql_query_account(conn: &rusqlite::Connection, address: &str) -> (r: Result<
    Option<(i64, i64)>,
    String,
>) {
    conn.query_row(
        "select balance, last_received_timestamp from receivable where wallet_address = ?1",
        (address,),
        |row| Ok((row.get(0)?, row.get(1)?)),
    ).optional().map_err(|e| format!("{}", e))
}

/// Relies on `std::time::SystemTime::now`: the seconds since the epoch, as
/// the system clock reports them.
#[verifier::external_body]
fn unix_time_now() -> (r: i64) {
    match std::time::SystemTime::now().duration_since(std::time::SystemTime::UNIX_EPOCH) {
        Ok(d) => d.as_secs() as i64,
        Err(_) => 0,
    }
}

/// What one UPDATE outcome means for the book.
#[derive(Clone, Copy, Debug, PartialEq, Eq, Structural)]
pub enum UpdateOutcome {
    Updated,
    NeedsInsert,
    Corrupt,
}

/// Read an UPDATE's answer: no rows means the account is new, any rows mean
/// it was credited, an error means the book is corrupt.
pub fn receivable_update_outcome(update_result: &Result<usize, String>) -> (r: UpdateOutcome)
    ensures
        (match update_result {
            Ok(n) => r == (if *n == 0 {
                UpdateOutcome::NeedsInsert
            } else {
                UpdateOutcome::Updated
            }),
            Err(_) => r == UpdateOutcome::Corrupt,
        }),
{
    match update_result {
        Ok(n) => {
            if *n == 0 {
                UpdateOutcome::NeedsInsert
            } else {
                UpdateOutcome::Updated
            }
        },
        Err(_) => UpdateOutcome::Corrupt,
    }
}

/// Turn a queried row into an account, carrying the wallet it was asked
/// about.
pub fn account_from_row(wallet_address: &Wallet, row: &Option<(i64, i64)>) -> (r: Option<
    ReceivableAccount,
>)
    ensures
        (match row {
            Some((balance, timestamp)) => r matches Some(acc) && acc.wallet_address@
                == wallet_address@ && acc.balance == balance && acc.last_received_timestamp
                == timestamp,
            None => r is None,
        }),
{
    match row {
        Some((balance, timestamp)) => Some(
            ReceivableAccount {
                wallet_address: wallet_address.clone(),
                balance: *balance,
                last_received_timestamp: *timestamp,
            },
        ),
        None => None,
    }
}

fn corrupt_message(detail: &str) -> (s: String)
    ensures
        s@ == "Database is corrupt: "@ + detail@,
{
    let mut s = String::from_str("Database is corrupt: ");
    append_str(&mut s, detail);
    s
}

/// What any receivable book answers: credits coming in, and the standing
/// of one account.
pub trait ReceivableDao {
    fn more_money_receivable(&self, wallet_address: &Wallet, amount: u64) -> (r: Result<
        (),
        String,
    >);

    fn account_status(&self, wallet_address: &Wallet) -> (r: Result<
        Option<ReceivableAccount>,
        String,
    >);
}

impl ReceivableDao for ReceivableDaoReal {
    fn more_money_receivable(&self, wallet_address: &Wallet, amount: u64) -> (r: Result<
        (),
        String,
    >) {
        self.more_money_receivable(wallet_address, amount)
    }

    fn account_status(&self, wallet_address: &Wallet) -> (r: Result<
        Option<ReceivableAccount>,
        String,
    >) {
        self.account_status(wallet_address)
    }
}

/// The receivable book over one database connection.
pub struct ReceivableDaoReal {
    pub conn: rusqlite::Connection,
}

impl ReceivableDaoReal {
    pub fn new(conn: rusqlite::Connection) -> ReceivableDaoReal {
        ReceivableDaoReal { conn }
    }

    /// Credit `amount` to the wallet's account, opening it if need be.
    /// A corrupt book is reported, never swallowed.
    pub fn more_money_receivable(&self, wallet_address: &Wallet, amount: u64) -> (r: Result<
        (),
        String,
    >)
        ensures
            r matches Err(m) ==> m@.len() >= "Database is corrupt: "@.len() && m@.subrange(
                0,
                "Database is corrupt: "@.len() as int,
            ) == "Database is corrupt: "@,
    {
        let signed = amount as i64;
        let update_result = sql_update_balance(&self.conn, signed, self.addr_str(wallet_address));
        match receivable_update_outcome(&update_result) {
            UpdateOutcome::Updated => Ok(()),
            UpdateOutcome::NeedsInsert => {
                let timestamp = unix_time_now();
                match sql_insert_account(
                    &self.conn,
                    self.addr_str(wallet_address),
                    signed,
                    timestamp,
                ) {
                    Ok(()) => Ok(()),
                    Err(e) => {
                        let m = corrupt_message(e.as_str());
                        proof {
                            assert(m@.subrange(0, "Database is corrupt: "@.len() as int)
                                =~= "Database is corrupt: "@);
                        }
                        Err(m)
                    },
                }
            },
            UpdateOutcome::Corrupt => {
                let detail = match &update_result {
                    Ok(_) => "",
                    Err(e) => e.as_str(),
                };
                let m = corrupt_message(detail);
                proof {
                    assert(m@.subrange(0, "Database is corrupt: "@.len() as int)
                        =~= "Database is corrupt: "@);
                }
                Err(m)
            },
        }
    }

    /// The wallet's account as the book has it, if it has it.
    pub fn account_status(&self, wallet_address: &Wallet) -> (r: Result<
        Option<ReceivableAccount>,
        String,
    >)
        ensures
            r matches Ok(Some(acc)) ==> acc.wallet_address@ == wallet_address@,
            r matches Err(m) ==> m@.len() >= "Database is corrupt: "@.len() && m@.subrange(
                0,
                "Database is corrupt: "@.len() as int,
            ) == "Database is corrupt: "@,
    {
        match sql_query_account(&self.conn, self.addr_str(wallet_address)) {
            Ok(row) => Ok(account_from_row(wallet_address, &row)),
            Err(e) => {
                let m = corrupt_message(e.as_str());
                proof {
                    assert(m@.subrange(0, "Database is corrupt: "@.len() as int)
                        =~= "Database is corrupt: "@);
                }
                Err(m)
            },
        }
    }

    fn addr_str<'a>(&self, wallet_address: &'a Wallet) -> (r: &'a str)
        ensures
            r@ == wallet_address@,
    {
        wallet_address.address.as_str()
    }
}

} // verus!

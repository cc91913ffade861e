//! Accounts and the operations of the account store: listing every account
//! with its current code, advancing an HOTP counter, adding, deleting and
//! inspecting accounts.

use vstd::prelude::*;

use crate::hotp::{algorithm_for_name, generate_hotp, hotp_code, parse_algorithm};
use crate::secret::{decode_secret, decoded_secret, invalid_secret_message, secret_decodes};
use crate::text::{optional_view, push_char, same_text, text_result, to_uppercase, uppercase};
use crate::totp::{seconds_remaining, totp_code_at, unix_time_secs};

verus! {

/// Whether an account's codes come from the clock or from a counter.
#[derive(Clone, Copy, Debug, PartialEq, Eq, Structural)]
pub enum OtpType {
    Totp,
    Hotp,
}

/// The kind of an account stored without one.
pub fn default_otp_type() -> (t: OtpType)
    ensures
        t == OtpType::Totp,
{
    OtpType::Totp
}

/// A stored account.
#[derive(Debug)]
pub struct Account {
    pub id: String,
    pub issuer: String,
    pub label: String,
    pub secret: String,
    pub digits: usize,
    pub period: u64,
    pub algorithm: String,
    pub otp_type: OtpType,
    pub counter: u64,
}

/// An account as listed, with its current code.
#[derive(Debug)]
pub struct AccountWithCode {
    pub id: String,
    pub issuer: String,
    pub label: String,
    pub code: String,
    pub digits: usize,
    pub period: u64,
    pub seconds_remaining: u64,
    pub otp_type: String,
    pub counter: u64,
}

/// What an account's details show.
#[derive(Debug)]
pub struct AccountDetails {
    pub stored_secret: String,
    pub secret_length_bytes: usize,
    pub algorithm: String,
    pub digits: usize,
    pub period: u64,
    pub otp_type: String,
    pub unix_time: u64,
    pub current_code: String,
    pub seconds_remaining: u64,
}

/// The HOTP code of an account at its counter, or why there is none.
pub open spec fn account_hotp_result(a: Account) -> Result<Seq<char>, Seq<char>> {
    match decoded_secret(a.secret@) {
        Ok(bytes) => Ok(hotp_code(bytes, a.counter, a.digits as nat, algorithm_for_name(a.algorithm@))),
        Err(e) => Err(e),
    }
}

/// The TOTP code of an account at a time and the seconds it stays valid.
pub open spec fn account_totp_at(a: Account, time: u64) -> (Seq<char>, u64) {
    (
        hotp_code(
            decoded_secret(a.secret@)->Ok_0,
            time / a.period,
            a.digits as nat,
            algorithm_for_name(a.algorithm@),
        ),
        seconds_remaining(a.period, time),
    )
}

/// An HOTP code can be computed for the account without overflow: where the
/// secret decodes, the code has at most nine digits.
pub open spec fn hotp_inputs_fit(a: Account) -> bool {
    secret_decodes(a.secret@) ==> a.digits <= 9
}

/// A TOTP code can be computed for the account: where the secret decodes, the
/// code has at most nine digits and the period is not zero.
pub open spec fn totp_inputs_fit(a: Account) -> bool {
    secret_decodes(a.secret@) ==> a.digits <= 9 && a.period > 0
}

/// The account's code can be computed for its kind.
pub open spec fn code_inputs_fit(a: Account) -> bool {
    match a.otp_type {
        OtpType::Hotp => hotp_inputs_fit(a),
        OtpType::Totp => totp_inputs_fit(a),
    }
}

/// The message of a clock error.
pub open spec fn is_time_error(message: Seq<char>) -> bool {
    exists|detail: Seq<char>| message == "Time error: "@ + detail
}

/// Whether a TOTP result is what the account gives at some time.
pub open spec fn totp_at_some_time(a: Account, code: Seq<char>, remaining: u64) -> bool {
    exists|time: u64| #[trigger] account_totp_at(a, time) == (code, remaining)
}

/// The HOTP code of an account at its counter.
pub fn generate_hotp_code(account: &Account) -> (r: Result<String, String>)
    requires
        hotp_inputs_fit(*account),
    ensures
        text_result(r) == account_hotp_result(*account),
{
    let algorithm = parse_algorithm(account.algorithm.as_str());
    let secret_bytes = match decode_secret(account.secret.as_str()) {
        Ok(bytes) => bytes,
        Err(e) => return Err(e),
    };
    Ok(generate_hotp(secret_bytes.as_slice(), account.counter, account.digits, algorithm))
}

/// The TOTP code of an account at a given time, and the seconds it stays
/// valid.
pub fn totp_code_for_account(account: &Account, time: u64) -> (r: Result<(String, u64), String>)
    requires
        totp_inputs_fit(*account),
    ensures
        match r {
            Ok((code, remaining)) => secret_decodes(account.secret@) && account_totp_at(*account, time) == (code@, remaining),
            Err(e) => !secret_decodes(account.secret@) && e@ == invalid_secret_message(),
        },
{
    let algorithm = parse_algorithm(account.algorithm.as_str());
    let secret_bytes = match decode_secret(account.secret.as_str()) {
        Ok(bytes) => bytes,
        Err(e) => return Err(e),
    };
    let (code, remaining) = totp_code_at(
        algorithm,
        account.digits,
        account.period,
        &secret_bytes,
        &account.issuer,
        &account.label,
        time,
    );
    Ok((code, remaining))
}

/// The TOTP code of an account now, by the system clock, and the seconds it
/// stays valid.
pub fn generate_totp_code(account: &Account) -> (r: Result<(String, u64), String>)
    requires
        totp_inputs_fit(*account),
    ensures
        !secret_decodes(account.secret@) ==> (r matches Err(e) && e@ == invalid_secret_message()),
        secret_decodes(account.secret@) ==> match r {
            Ok((code, remaining)) => totp_at_some_time(*account, code@, remaining),
            Err(e) => is_time_error(e@),
        },
{
    match decode_secret(account.secret.as_str()) {
        Ok(_) => {},
        Err(e) => return Err(e),
    }
    let time = match clock_seconds() {
        Ok(t) => t,
        Err(e) => return Err(e),
    };
    let r = totp_code_for_account(account, time);
    assert(r matches Ok((code, remaining)) ==> account_totp_at(*account, time) == (code@, remaining));
    r
}

/// A copy of an account.
fn copy_account(a: &Account) -> (r: Account)
    ensures
        r == *a,
{
    Account {
        id: a.id.clone(),
        issuer: a.issuer.clone(),
        label: a.label.clone(),
        secret: a.secret.clone(),
        digits: a.digits,
        period: a.period,
        algorithm: a.algorithm.clone(),
        otp_type: a.otp_type,
        counter: a.counter,
    }
}

/// The text of a listed account's kind.
pub open spec fn otp_type_text(t: OtpType) -> Seq<char> {
    match t {
        OtpType::Hotp => "hotp"@,
        OtpType::Totp => "totp"@,
    }
}

/// The code of a listed account whose code could not be computed.
pub open spec fn listed_error(message: Seq<char>) -> Seq<char> {
    "ERR: "@ + message
}

/// The view of a clock reading: the seconds, or the message of a clock error.
pub open spec fn reading_view(r: Result<u64, String>) -> Result<u64, Seq<char>> {
    match r {
        Ok(t) => Ok(t),
        Err(m) => Err(m@),
    }
}

/// An entry of the listing shows the account and its code with the given
/// clock reading: the HOTP code at its counter; the TOTP code at the reading
/// with the seconds it stays valid; or `ERR: ` and the reason (a secret that
/// does not decode, or the clock error).
pub open spec fn listed_entry_at(a: Account, e: AccountWithCode, reading: Result<u64, Seq<char>>) -> bool {
    &&& e.id@ == a.id@
    &&& e.issuer@ == a.issuer@
    &&& e.label@ == a.label@
    &&& e.digits == a.digits
    &&& e.period == a.period
    &&& e.counter == a.counter
    &&& e.otp_type@ == otp_type_text(a.otp_type)
    &&& match a.otp_type {
        OtpType::Hotp => {
            &&& e.seconds_remaining == 0
            &&& e.code@ == match account_hotp_result(a) {
                Ok(code) => code,
                Err(message) => listed_error(message),
            }
        },
        OtpType::Totp => if !secret_decodes(a.secret@) {
            e.seconds_remaining == 0 && e.code@ == listed_error(invalid_secret_message())
        } else {
            match reading {
                Ok(time) => account_totp_at(a, time) == (e.code@, e.seconds_remaining),
                Err(message) => e.seconds_remaining == 0 && e.code@ == listed_error(message),
            }
        },
    }
}

/// The listing shows every account, in order, each with its clock reading.
pub open spec fn listed_codes_at(
    accounts: Seq<Account>,
    listing: Seq<AccountWithCode>,
    readings: Seq<Result<u64, String>>,
) -> bool {
    &&& listing.len() == accounts.len()
    &&& readings.len() == accounts.len()
    &&& forall|i: int|
        0 <= i < accounts.len() ==> listed_entry_at(accounts[i], #[trigger] listing[i], reading_view(readings[i]))
}

/// Readings of the system clock: each is a time or a clock error.
pub open spec fn clock_readings(readings: Seq<Result<u64, String>>) -> bool {
    forall|i: int| 0 <= i < readings.len() ==> (#[trigger] readings[i] matches Err(m) ==> is_time_error(m@))
}

/// The listing shows every account, in order, each TOTP code being that of a
/// reading of the system clock taken for it.
pub open spec fn listed_codes(accounts: Seq<Account>, listing: Seq<AccountWithCode>) -> bool {
    exists|readings: Seq<Result<u64, String>>|
        clock_readings(readings) && #[trigger] listed_codes_at(accounts, listing, readings)
}

/// Every account's code can be computed.
pub open spec fn all_code_inputs_fit(accounts: Seq<Account>) -> bool {
    forall|i: int| 0 <= i < accounts.len() ==> code_inputs_fit(#[trigger] accounts[i])
}

fn error_code(message: String) -> (code: String)
    ensures
        code@ == listed_error(message@),
{
    String::from_str("ERR: ").concat(message.as_str())
}

fn copy_reading(r: &Result<u64, String>) -> (c: Result<u64, String>)
    ensures
        c == *r,
{
    match r {
        Ok(t) => Ok(*t),
        Err(m) => Err(m.clone()),
    }
}

fn listed_account_at(account: &Account, reading: &Result<u64, String>) -> (entry: AccountWithCode)
    requires
        code_inputs_fit(*account),
    ensures
        listed_entry_at(*account, entry, reading_view(*reading)),
{
    let (code, remaining) = if account.otp_type == OtpType::Hotp {
        match generate_hotp_code(account) {
            Ok(code) => (code, 0u64),
            Err(e) => (error_code(e), 0u64),
        }
    } else {
        match copy_reading(reading) {
            Ok(time) => match totp_code_for_account(account, time) {
                Ok((code, remaining)) => (code, remaining),
                Err(e) => (error_code(e), 0u64),
            },
            Err(m) => match decode_secret(account.secret.as_str()) {
                Ok(_) => (error_code(m), 0u64),
                Err(e) => (error_code(e), 0u64),
            },
        }
    };
    let type_text = match account.otp_type {
        OtpType::Hotp => String::from_str("hotp"),
        OtpType::Totp => String::from_str("totp"),
    };
    AccountWithCode {
        id: account.id.clone(),
        issuer: account.issuer.clone(),
        label: account.label.clone(),
        code,
        digits: account.digits,
        period: account.period,
        seconds_remaining: remaining,
        otp_type: type_text,
        counter: account.counter,
    }
}

/// Every account with its code, in order, given one clock reading per account
/// (a TOTP account's code is that of its reading; other accounts ignore it).
pub fn get_all_codes_at(accounts: &Vec<Account>, readings: &Vec<Result<u64, String>>) -> (listing: Vec<
    AccountWithCode,
>)
    requires
        all_code_inputs_fit(accounts@),
        readings@.len() == accounts@.len(),
    ensures
        listed_codes_at(accounts@, listing@, readings@),
{
    let mut listing: Vec<AccountWithCode> = Vec::new();
    let n = accounts.len();
    for i in 0..n
        invariant
            n == accounts@.len(),
            n == readings@.len(),
            all_code_inputs_fit(accounts@),
            listing@.len() == i,
            forall|j: int|
                0 <= j < i ==> listed_entry_at(accounts@[j], #[trigger] listing@[j], reading_view(readings@[j])),
    {
        let entry = listed_account_at(&accounts[i], &readings[i]);
        listing.push(entry);
    }
    listing
}

/// Every account with its current code, in order: the system clock is read
/// for each TOTP account, and the listing is that of those readings.
pub fn get_all_codes(accounts: &Vec<Account>) -> (listing: Vec<AccountWithCode>)
    requires
        all_code_inputs_fit(accounts@),
    ensures
        listed_codes(accounts@, listing@),
{
    let mut readings: Vec<Result<u64, String>> = Vec::new();
    let n = accounts.len();
    for i in 0..n
        invariant
            n == accounts@.len(),
            readings@.len() == i,
            clock_readings(readings@),
    {
        let reading = if accounts[i].otp_type == OtpType::Totp {
            clock_seconds()
        } else {
            Ok(0u64)
        };
        let ghost before = readings@;
        readings.push(reading);
        assert forall|j: int| 0 <= j < readings@.len() implies (#[trigger] readings@[j] matches Err(m)
            ==> is_time_error(m@)) by {
            if j < i {
                assert(readings@[j] == before[j]);
            }
        }
    }
    let listing = get_all_codes_at(accounts, &readings);
    assert(listed_codes_at(accounts@, listing@, readings@));
    listing
}

/// Whether an account's code can be computed without overflow.
pub fn code_inputs_ok(account: &Account) -> (ok: bool)
    ensures
        ok == code_inputs_fit(*account),
{
    let decodes = match decode_secret(account.secret.as_str()) {
        Ok(_) => true,
        Err(_) => false,
    };
    match account.otp_type {
        OtpType::Hotp => !decodes || account.digits <= 9,
        OtpType::Totp => !decodes || (account.digits <= 9 && account.period > 0),
    }
}

/// Every account with its current code, or `None` where some account's code
/// cannot be computed (too many digits, or a zero period).
pub fn get_all_codes_checked(accounts: &Vec<Account>) -> (r: Option<Vec<AccountWithCode>>)
    ensures
        r is None <==> !all_code_inputs_fit(accounts@),
        r matches Some(listing) ==> listed_codes(accounts@, listing@),
{
    let n = accounts.len();
    for i in 0..n
        invariant
            n == accounts@.len(),
            forall|j: int| 0 <= j < i ==> code_inputs_fit(#[trigger] accounts@[j]),
    {
        if !code_inputs_ok(&accounts[i]) {
            return None;
        }
    }
    Some(get_all_codes(accounts))
}

/// `i` is the first account with this id.
pub open spec fn first_with_id(accounts: Seq<Account>, id: Seq<char>, i: int) -> bool {
    &&& 0 <= i < accounts.len()
    &&& accounts[i].id@ == id
    &&& forall|j: int| 0 <= j < i ==> (#[trigger] accounts[j]).id@ != id
}

/// Some account has this id.
pub open spec fn has_id(accounts: Seq<Account>, id: Seq<char>) -> bool {
    exists|i: int| 0 <= i < accounts.len() && (#[trigger] accounts[i]).id@ == id
}

/// The position of the first account with this id.
pub fn find_account(accounts: &Vec<Account>, id: &str) -> (r: Option<usize>)
    ensures
        match r {
            Some(i) => first_with_id(accounts@, id@, i as int),
            None => !has_id(accounts@, id@),
        },
{
    let n = accounts.len();
    for i in 0..n
        invariant
            n == accounts@.len(),
            forall|j: int| 0 <= j < i ==> (#[trigger] accounts@[j]).id@ != id@,
    {
        if same_text(accounts[i].id.as_str(), id) {
            return Some(i);
        }
    }
    None
}

/// The account with its counter set to `counter`.
pub open spec fn with_counter(a: Account, counter: u64) -> Account {
    Account {
        id: a.id,
        issuer: a.issuer,
        label: a.label,
        secret: a.secret,
        digits: a.digits,
        period: a.period,
        algorithm: a.algorithm,
        otp_type: a.otp_type,
        counter,
    }
}

/// The first account with the id, where it is an HOTP account, can advance
/// its counter and compute its code.
pub open spec fn hotp_advance_fits(accounts: Seq<Account>, id: Seq<char>) -> bool {
    forall|i: int|
        #![trigger accounts[i]]
        first_with_id(accounts, id, i) && accounts[i].otp_type == OtpType::Hotp ==> {
            &&& accounts[i].counter < u64::MAX
            &&& hotp_inputs_fit(accounts[i])
        }
}

/// Advancing an HOTP counter: an unknown id and a TOTP account are refused
/// and change nothing; otherwise the first account with the id has its
/// counter raised by one, and the result is its code at the new counter.
pub open spec fn next_hotp_outcome(
    before: Seq<Account>,
    after: Seq<Account>,
    id: Seq<char>,
    r: Result<Seq<char>, Seq<char>>,
) -> bool {
    &&& !has_id(before, id) ==> after == before && r == Err::<Seq<char>, Seq<char>>("Account not found"@)
    &&& forall|i: int|
        #![trigger before[i]]
        first_with_id(before, id, i) ==> if before[i].otp_type != OtpType::Hotp {
            after == before && r == Err::<Seq<char>, Seq<char>>("Not an HOTP account"@)
        } else {
            let advanced = with_counter(before[i], (before[i].counter + 1) as u64);
            &&& after == before.update(i, advanced)
            &&& r == account_hotp_result(advanced)
        }
}

/// Advances the counter of the HOTP account with this id and returns its new
/// code.
pub fn next_hotp_code(accounts: &mut Vec<Account>, id: &str) -> (r: Result<String, String>)
    requires
        hotp_advance_fits(old(accounts)@, id@),
    ensures
        next_hotp_outcome(old(accounts)@, final(accounts)@, id@, text_result(r)),
{
    let i = match find_account(accounts, id) {
        Some(i) => i,
        None => return Err(String::from_str("Account not found")),
    };
    assert(first_with_id(old(accounts)@, id@, i as int));
    if accounts[i].otp_type != OtpType::Hotp {
        return Err(String::from_str("Not an HOTP account"));
    }
    let mut advanced = copy_account(&accounts[i]);
    advanced.counter = advanced.counter + 1;
    accounts.set(i, advanced);
    let r = generate_hotp_code(&accounts[i]);
    proof {
        assert forall|k: int| #![trigger old(accounts)@[k]] first_with_id(old(accounts)@, id@, k) implies k == i by {
            if k < i {
                assert(old(accounts)@[k].id@ != id@);
            } else if k > i {
                assert(old(accounts)@[i as int].id@ != id@);
            }
        }
    }
    r
}

/// Advances an HOTP counter where that cannot overflow: `None`, with nothing
/// changed, where the first account with the id is an HOTP account whose
/// counter is at its maximum or whose code would have too many digits.
pub fn next_hotp_code_checked(accounts: &mut Vec<Account>, id: &str) -> (r: Option<Result<String, String>>)
    ensures
        r is None <==> !hotp_advance_fits(old(accounts)@, id@),
        r is None ==> final(accounts)@ == old(accounts)@,
        r matches Some(x) ==> next_hotp_outcome(old(accounts)@, final(accounts)@, id@, text_result(x)),
{
    match find_account(accounts, id) {
        Some(i) => {
            if accounts[i].otp_type == OtpType::Hotp {
                let fits = accounts[i].counter < u64::MAX && code_inputs_ok(&accounts[i]);
                if !fits {
                    assert(!hotp_advance_fits(accounts@, id@)) by {
                        assert(first_with_id(accounts@, id@, i as int));
                    }
                    return None;
                }
            }
            proof {
                assert forall|k: int|
                    #![trigger accounts@[k]]
                    first_with_id(accounts@, id@, k) && accounts@[k].otp_type == OtpType::Hotp implies
                        accounts@[k].counter < u64::MAX && hotp_inputs_fit(accounts@[k]) by {
                    if k < i {
                        assert(accounts@[k].id@ != id@);
                    } else if k > i {
                        assert(accounts@[i as int].id@ != id@);
                    }
                }
            }
        },
        None => {},
    }
    Some(next_hotp_code(accounts, id))
}

/// The accounts without those that have this id, in order.
pub open spec fn without_id(accounts: Seq<Account>, id: Seq<char>) -> Seq<Account>
    decreases accounts.len(),
{
    if accounts.len() == 0 {
        accounts
    } else {
        let rest = without_id(accounts.drop_last(), id);
        if accounts.last().id@ == id {
            rest
        } else {
            rest.push(accounts.last())
        }
    }
}

/// Removes every account with this id.
pub fn delete_account(accounts: &mut Vec<Account>, id: &str)
    ensures
        final(accounts)@ == without_id(old(accounts)@, id@),
{
    let mut kept: Vec<Account> = Vec::new();
    let n = accounts.len();
    for i in 0..n
        invariant
            n == accounts@.len(),
            accounts@ == old(accounts)@,
            kept@ == without_id(accounts@.subrange(0, i as int), id@),
    {
        let ghost prefix = accounts@.subrange(0, i + 1);
        assert(prefix.drop_last() =~= accounts@.subrange(0, i as int));
        if !same_text(accounts[i].id.as_str(), id) {
            kept.push(copy_account(&accounts[i]));
        }
    }
    assert(accounts@.subrange(0, n as int) =~= accounts@);
    *accounts = kept;
}

/// No account that remains has the id, every other account remains, and at
/// most as many accounts remain.
pub proof fn lemma_delete_account(accounts: Seq<Account>, id: Seq<char>)
    ensures
        !has_id(without_id(accounts, id), id),
        forall|a: Account| accounts.contains(a) && a.id@ != id ==> without_id(accounts, id).contains(a),
        forall|a: Account| #[trigger] without_id(accounts, id).contains(a) ==> accounts.contains(a),
        without_id(accounts, id).len() <= accounts.len(),
        !has_id(accounts, id) ==> without_id(accounts, id) == accounts,
    decreases accounts.len(),
{
    if accounts.len() > 0 {
        let p = accounts.drop_last();
        lemma_delete_account(p, id);
        let rest = without_id(p, id);
        let last = accounts.last();
        assert forall|a: Account| accounts.contains(a) && a.id@ != id implies without_id(accounts, id).contains(a) by {
            let k = choose|k: int| 0 <= k < accounts.len() && accounts[k] == a;
            if k < accounts.len() - 1 {
                assert(p[k] == a);
                assert(p.contains(a));
                let m = choose|m: int| 0 <= m < rest.len() && rest[m] == a;
                if last.id@ != id {
                    assert(rest.push(last)[m] == a);
                }
            } else {
                assert(rest.push(last)[rest.len() as int] == a);
            }
        }
        assert forall|a: Account| #[trigger] without_id(accounts, id).contains(a) implies accounts.contains(a) by {
            let m = choose|m: int| 0 <= m < without_id(accounts, id).len() && without_id(accounts, id)[m] == a;
            if m < rest.len() {
                assert(rest[m] == a);
                assert(rest.contains(a));
                let k = choose|k: int| 0 <= k < p.len() && p[k] == a;
                assert(accounts[k] == a);
            } else {
                assert(a == last);
                assert(accounts[accounts.len() - 1] == a);
            }
        }
        if has_id(without_id(accounts, id), id) {
            let m = choose|m: int| 0 <= m < without_id(accounts, id).len() && (#[trigger] without_id(accounts, id)[m]).id@ == id;
            if m < rest.len() {
                assert(rest[m].id@ == id);
            }
        }
        if !has_id(accounts, id) {
            assert(!has_id(p, id)) by {
                if has_id(p, id) {
                    let k = choose|k: int| 0 <= k < p.len() && (#[trigger] p[k]).id@ == id;
                    assert(accounts[k].id@ == id);
                }
            }
            assert(accounts[accounts.len() - 1].id@ != id);
            assert(rest.push(last) =~= accounts);
        }
    }
}

/// Deleting the id of an account just added under a fresh id gives back the
/// accounts as they were before.
pub proof fn lemma_delete_undoes_add(accounts: Seq<Account>, added: Account)
    requires
        !has_id(accounts, added.id@),
    ensures
        without_id(accounts.push(added), added.id@) == accounts,
{
    let s = accounts.push(added);
    assert(s.drop_last() =~= accounts);
    lemma_delete_account(accounts, added.id@);
}

/// The secret text with every space removed.
pub open spec fn without_spaces(s: Seq<char>) -> Seq<char>
    decreases s.len(),
{
    if s.len() == 0 {
        s
    } else {
        let rest = without_spaces(s.drop_last());
        if s.last() == ' ' {
            rest
        } else {
            rest.push(s.last())
        }
    }
}

/// The secret as stored: spaces removed, then uppercased.
pub open spec fn cleaned_secret(s: Seq<char>) -> Seq<char> {
    uppercase(without_spaces(s))
}

fn remove_spaces(s: &str) -> (r: String)
    ensures
        r@ == without_spaces(s@),
{
    let n = s.unicode_len();
    let mut r = String::new();
    for i in 0..n
        invariant
            n == s@.len(),
            r@ == without_spaces(s@.subrange(0, i as int)),
    {
        let c = s.get_char(i);
        assert(s@.subrange(0, i + 1).drop_last() =~= s@.subrange(0, i as int));
        if c != ' ' {
            push_char(&mut r, c);
        }
    }
    assert(s@.subrange(0, n as int) =~= s@);
    r
}

/// The kind that a requested type selects: `hotp` selects HOTP, anything
/// else, or nothing, TOTP.
pub open spec fn requested_otp_type(t: Option<Seq<char>>) -> OtpType {
    if t == Some("hotp"@) {
        OtpType::Hotp
    } else {
        OtpType::Totp
    }
}

/// Only the requested type `hotp`, exactly, stores an HOTP account; any
/// other requested type (`totp`, `HOTP`, anything else) or none stores a TOTP
/// account.
pub proof fn lemma_requested_otp_type(t: Option<Seq<char>>)
    ensures
        requested_otp_type(t) == OtpType::Hotp <==> t == Some("hotp"@),
        requested_otp_type(Some("totp"@)) == OtpType::Totp,
        requested_otp_type(None) == OtpType::Totp,
{
    reveal_strlit("totp");
    reveal_strlit("hotp");
    assert("totp"@[0] != "hotp"@[0]);
}

/// The account that adding stores, with the defaults of six digits, thirty
/// seconds, SHA1 and counter zero.
pub open spec fn added_account(
    a: Account,
    id: Seq<char>,
    issuer: Seq<char>,
    label: Seq<char>,
    secret: Seq<char>,
    digits: Option<usize>,
    period: Option<u64>,
    algorithm: Option<Seq<char>>,
    otp_type: Option<Seq<char>>,
    counter: Option<u64>,
) -> bool {
    &&& a.id@ == id
    &&& a.issuer@ == issuer
    &&& a.label@ == label
    &&& a.secret@ == cleaned_secret(secret)
    &&& a.digits == match digits { Some(d) => d, None => 6usize }
    &&& a.period == match period { Some(p) => p, None => 30u64 }
    &&& a.algorithm@ == match algorithm { Some(name) => name, None => "SHA1"@ }
    &&& a.otp_type == requested_otp_type(otp_type)
    &&& a.counter == match counter { Some(c) => c, None => 0u64 }
}

/// Adds an account under the given id. A secret that does not decode (after
/// removing spaces and uppercasing) is refused and nothing is added.
pub fn add_account(
    accounts: &mut Vec<Account>,
    id: String,
    issuer: String,
    label: String,
    secret: String,
    digits: Option<usize>,
    period: Option<u64>,
    algorithm: Option<String>,
    otp_type: Option<String>,
    counter: Option<u64>,
) -> (r: Result<String, String>)
    ensures
        r is Err <==> !secret_decodes(cleaned_secret(secret@)),
        r matches Err(e) ==> e@ == invalid_secret_message() && final(accounts)@ == old(accounts)@,
        r matches Ok(added) ==> {
            &&& added@ == id@
            &&& final(accounts)@.len() == old(accounts)@.len() + 1
            &&& final(accounts)@.drop_last() == old(accounts)@
            &&& added_account(
                final(accounts)@.last(),
                id@,
                issuer@,
                label@,
                secret@,
                digits,
                period,
                optional_view(algorithm),
                optional_view(otp_type),
                counter,
            )
            &&& (final(accounts)@.last().otp_type == OtpType::Hotp <==> optional_view(otp_type) == Some("hotp"@))
        },
{
    let spaceless = remove_spaces(secret.as_str());
    let clean_secret = to_uppercase(spaceless.as_str());
    match decode_secret(clean_secret.as_str()) {
        Ok(_) => {},
        Err(e) => return Err(e),
    }
    let otype = match &otp_type {
        Some(t) => if same_text(t.as_str(), "hotp") {
            OtpType::Hotp
        } else {
            OtpType::Totp
        },
        None => OtpType::Totp,
    };
    let algorithm_name = match algorithm {
        Some(name) => name,
        None => String::from_str("SHA1"),
    };
    let account = Account {
        id: id.clone(),
        issuer,
        label,
        secret: clean_secret,
        digits: match digits {
            Some(d) => d,
            None => 6,
        },
        period: match period {
            Some(p) => p,
            None => 30,
        },
        algorithm: algorithm_name,
        otp_type: otype,
        counter: match counter {
            Some(c) => c,
            None => 0,
        },
    };
    accounts.push(account);
    assert(accounts@.drop_last() =~= old(accounts)@);
    Ok(id)
}

/// The text that the details give for an account's kind.
pub open spec fn otp_type_name(t: OtpType) -> Seq<char> {
    match t {
        OtpType::Hotp => "Hotp"@,
        OtpType::Totp => "Totp"@,
    }
}

/// The details of an account whose secret decodes, read at `unix_time`: the
/// stored fields, the length of the decoded secret, the time, and the current
/// code (the HOTP code at the counter, or the TOTP code at `code_time` with the
/// seconds it stays valid).
pub open spec fn details_at_time(a: Account, d: AccountDetails, unix_time: u64, code_time: u64) -> bool {
    &&& d.stored_secret@ == a.secret@
    &&& d.secret_length_bytes == decoded_secret(a.secret@)->Ok_0.len()
    &&& d.algorithm@ == a.algorithm@
    &&& d.digits == a.digits
    &&& d.period == a.period
    &&& d.otp_type@ == otp_type_name(a.otp_type)
    &&& d.unix_time == unix_time
    &&& match a.otp_type {
        OtpType::Hotp => d.seconds_remaining == 0 && account_hotp_result(a) == Ok::<Seq<char>, Seq<char>>(d.current_code@),
        OtpType::Totp => account_totp_at(a, code_time) == (d.current_code@, d.seconds_remaining),
    }
}

/// The account with the id can have its details computed.
pub open spec fn details_inputs_fit(accounts: Seq<Account>, id: Seq<char>) -> bool {
    forall|i: int| #![trigger accounts[i]] first_with_id(accounts, id, i) ==> code_inputs_fit(accounts[i])
}

/// The details of the first account with the id at given clock readings: an
/// unknown id and a secret that does not decode are refused; otherwise the
/// details read at `unix_time`, with a TOTP code of `code_time`.
pub open spec fn details_at_outcome(
    accounts: Seq<Account>,
    id: Seq<char>,
    unix_time: u64,
    code_time: u64,
    r: Result<AccountDetails, String>,
) -> bool {
    &&& !has_id(accounts, id) ==> (r matches Err(e) && e@ == "Account not found"@)
    &&& forall|i: int|
        #![trigger accounts[i]]
        first_with_id(accounts, id, i) ==> if !secret_decodes(accounts[i].secret@) {
            r matches Err(e) && e@ == invalid_secret_message()
        } else {
            r matches Ok(d) && details_at_time(accounts[i], d, unix_time, code_time)
        }
}

/// The details of the first account with the id, by the system clock: an
/// unknown id and a secret that does not decode are refused; otherwise the
/// details read at the time they show, the TOTP code being that of the same
/// time, or a clock error.
pub open spec fn details_outcome(accounts: Seq<Account>, id: Seq<char>, r: Result<AccountDetails, String>) -> bool {
    &&& !has_id(accounts, id) ==> (r matches Err(e) && e@ == "Account not found"@)
    &&& forall|i: int|
        #![trigger accounts[i]]
        first_with_id(accounts, id, i) ==> if !secret_decodes(accounts[i].secret@) {
            r matches Err(e) && e@ == invalid_secret_message()
        } else {
            match r {
                Ok(d) => details_at_time(accounts[i], d, d.unix_time, d.unix_time),
                Err(e) => is_time_error(e@),
            }
        }
}

proof fn lemma_first_with_id_unique(accounts: Seq<Account>, id: Seq<char>, i: int)
    requires
        first_with_id(accounts, id, i),
    ensures
        forall|k: int| #![trigger accounts[k]] first_with_id(accounts, id, k) ==> k == i,
{
    assert forall|k: int| #![trigger accounts[k]] first_with_id(accounts, id, k) implies k == i by {
        if k < i {
            assert(accounts[k].id@ != id);
        } else if k > i {
            assert(accounts[i].id@ != id);
        }
    }
}

/// The stored details of the account with this id, read at `unix_time`, and
/// its current code, a TOTP code being that of `code_time`.
pub fn details_at(accounts: &Vec<Account>, id: &str, unix_time: u64, code_time: u64) -> (r: Result<AccountDetails, String>)
    requires
        details_inputs_fit(accounts@, id@),
    ensures
        details_at_outcome(accounts@, id@, unix_time, code_time, r),
{
    let i = match find_account(accounts, id) {
        Some(i) => i,
        None => return Err(String::from_str("Account not found")),
    };
    let account = &accounts[i];
    proof {
        lemma_first_with_id_unique(accounts@, id@, i as int);
    }
    let secret_bytes = match decode_secret(account.secret.as_str()) {
        Ok(bytes) => bytes,
        Err(e) => return Err(e),
    };
    let (code, remaining) = if account.otp_type == OtpType::Totp {
        match totp_code_for_account(account, code_time) {
            Ok(r) => r,
            Err(e) => return Err(e),
        }
    } else {
        match generate_hotp_code(account) {
            Ok(code) => (code, 0u64),
            Err(e) => return Err(e),
        }
    };
    let otp_type = match account.otp_type {
        OtpType::Totp => String::from_str("Totp"),
        OtpType::Hotp => String::from_str("Hotp"),
    };
    Ok(
        AccountDetails {
            stored_secret: account.secret.clone(),
            secret_length_bytes: secret_bytes.len(),
            algorithm: account.algorithm.clone(),
            digits: account.digits,
            period: account.period,
            otp_type,
            unix_time,
            current_code: code,
            seconds_remaining: remaining,
        },
    )
}

fn clock_seconds() -> (r: Result<u64, String>)
    ensures
        r matches Err(e) ==> is_time_error(e@),
{
    match unix_time_secs() {
        Ok(t) => Ok(t),
        Err(e) => {
            let message = String::from_str("Time error: ").concat(e.as_str());
            assert(message@ == "Time error: "@ + e@);
            Err(message)
        },
    }
}

/// The stored details and current code of the account with this id, by the
/// system clock: the details, the TOTP code included, are those of the one
/// clock reading they show.
pub fn verify_account(accounts: &Vec<Account>, id: &str) -> (r: Result<AccountDetails, String>)
    requires
        details_inputs_fit(accounts@, id@),
    ensures
        details_outcome(accounts@, id@, r),
{
    let i = match find_account(accounts, id) {
        Some(i) => i,
        None => return Err(String::from_str("Account not found")),
    };
    let account = &accounts[i];
    proof {
        lemma_first_with_id_unique(accounts@, id@, i as int);
    }
    match decode_secret(account.secret.as_str()) {
        Ok(_) => {},
        Err(e) => return Err(e),
    }
    let unix_time = match clock_seconds() {
        Ok(t) => t,
        Err(e) => return Err(e),
    };
    details_at(accounts, id, unix_time, unix_time)
}

/// The details that `verify_account` shows of a TOTP account tell the time
/// they were read at, and their code and seconds left are those of that time:
/// the HOTP code of the step `unix_time / period`, valid for the seconds up to
/// the next multiple of the period.
pub proof fn lemma_details_code_of_shown_time(accounts: Seq<Account>, id: Seq<char>, i: int, d: AccountDetails)
    requires
        details_outcome(accounts, id, Ok(d)),
        first_with_id(accounts, id, i),
        accounts[i].otp_type == OtpType::Totp,
        totp_inputs_fit(accounts[i]),
    ensures
        d.current_code@ == hotp_code(
            decoded_secret(accounts[i].secret@)->Ok_0,
            d.unix_time / accounts[i].period,
            accounts[i].digits as nat,
            algorithm_for_name(accounts[i].algorithm@),
        ),
        d.seconds_remaining == accounts[i].period - d.unix_time % accounts[i].period,
        1 <= d.seconds_remaining <= accounts[i].period,
        (d.unix_time + d.seconds_remaining) % (accounts[i].period as int) == 0,
{
    let a = accounts[i];
    if !secret_decodes(a.secret@) {
        assert(false);
    }
    assert(details_at_time(a, d, d.unix_time, d.unix_time));
    crate::totp::lemma_seconds_remaining(a.period, d.unix_time);
}

/// The details of the account with this id, or `None` where its code cannot
/// be computed (too many digits, or a zero period).
pub fn verify_account_checked(accounts: &Vec<Account>, id: &str) -> (r: Option<Result<AccountDetails, String>>)
    ensures
        r is None <==> !details_inputs_fit(accounts@, id@),
        r matches Some(x) ==> details_outcome(accounts@, id@, x),
{
    match find_account(accounts, id) {
        Some(i) => {
            assert(first_with_id(accounts@, id@, i as int));
            proof {
                assert forall|k: int| #![trigger accounts@[k]] first_with_id(accounts@, id@, k) implies k == i by {
                    if k < i {
                        assert(accounts@[k].id@ != id@);
                    } else if k > i {
                        assert(accounts@[i as int].id@ != id@);
                    }
                }
            }
            if !code_inputs_ok(&accounts[i]) {
                return None;
            }
        },
        None => {},
    }
    Some(verify_account(accounts, id))
}

} // verus!

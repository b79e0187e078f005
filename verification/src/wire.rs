//! The wire format: the shape of input records and output rows.
//!
//! An input record is `type,client,tx,amount` — the type is one of five
//! keywords, case-insensitive; client and tx are decimal integers; the
//! amount is an unsigned decimal string with up to four fractional digits,
//! present only for deposits and withdrawals. An output row is
//! `client,available,held,total,locked` with amounts rendered to exactly
//! four fractional digits. Reading and writing the bytes belongs to the
//! callers; the grammar and the rendering live here, verified.

use vstd::prelude::*;
use crate::account::Account;
use crate::amount::{pow10, Amount};
use crate::transaction::{ClientId, Transaction, TransactionType, TxId};

verus! {

broadcast use vstd::string::group_string_axioms;

/// The character's code with an ASCII letter folded to lower case.
pub open spec fn lower_code(c: char) -> int {
    if 65 <= c as int <= 90 {
        c as int + 32
    } else {
        c as int
    }
}

/// Case-insensitive match between a string and a keyword.
pub open spec fn matches_keyword(s: Seq<char>, kw: Seq<char>) -> bool {
    s.len() == kw.len() && forall|i: int| 0 <= i < s.len() ==> lower_code(s[i]) == lower_code(
        #[trigger] kw[i],
    )
}

/// The character's code with an ASCII letter folded to lower case.
fn lower_code_exec(c: char) -> (r: u32)
    ensures
        r == lower_code(c),
{
    let u = c as u32;
    if 65 <= u && u <= 90 {
        u + 32
    } else {
        u
    }
}

/// Whether the string equals the keyword up to ASCII case.
pub fn eq_ignore_case(s: &str, kw: &str) -> (r: bool)
    ensures
        r == matches_keyword(s@, kw@),
{
    let n = s.unicode_len();
    let m = kw.unicode_len();
    if n != m {
        return false;
    }
    let mut i: usize = 0;
    while i < n
        invariant
            i <= n,
            n == s@.len(),
            n == kw@.len(),
            forall|j: int| 0 <= j < i as int ==> lower_code(s@[j]) == lower_code(#[trigger] kw@[j]),
        decreases n - i,
    {
        let a = s.get_char(i);
        let b = kw.get_char(i);
        if lower_code_exec(a) != lower_code_exec(b) {
            return false;
        }
        i += 1;
    }
    true
}

/// Which transaction type a keyword names, case-insensitively; `None` for
/// anything else.
pub open spec fn spec_parse_tx_type(s: Seq<char>) -> Option<TransactionType> {
    if matches_keyword(s, "deposit"@) {
        Some(TransactionType::Deposit)
    } else if matches_keyword(s, "withdrawal"@) {
        Some(TransactionType::Withdrawal)
    } else if matches_keyword(s, "dispute"@) {
        Some(TransactionType::Dispute)
    } else if matches_keyword(s, "resolve"@) {
        Some(TransactionType::Resolve)
    } else if matches_keyword(s, "chargeback"@) {
        Some(TransactionType::Chargeback)
    } else {
        None
    }
}

/// Parses the record type field.
pub fn parse_tx_type(s: &str) -> (r: Option<TransactionType>)
    ensures
        r == spec_parse_tx_type(s@),
{
    if eq_ignore_case(s, "deposit") {
        Some(TransactionType::Deposit)
    } else if eq_ignore_case(s, "withdrawal") {
        Some(TransactionType::Withdrawal)
    } else if eq_ignore_case(s, "dispute") {
        Some(TransactionType::Dispute)
    } else if eq_ignore_case(s, "resolve") {
        Some(TransactionType::Resolve)
    } else if eq_ignore_case(s, "chargeback") {
        Some(TransactionType::Chargeback)
    } else {
        None
    }
}

/// Whether the character is a decimal digit.
pub open spec fn is_digit(c: char) -> bool {
    48 <= c as int <= 57
}

/// The digit's value.
pub open spec fn digit_val(c: char) -> int {
    c as int - 48
}

/// The value of a digit string, most significant digit first.
pub open spec fn digits_val(s: Seq<char>) -> int
    decreases s.len(),
{
    if s.len() == 0 {
        0
    } else {
        digits_val(s.drop_last()) * 10 + digit_val(s.last())
    }
}

/// Whether every character is a digit.
pub open spec fn all_digits(s: Seq<char>) -> bool {
    forall|i: int| 0 <= i < s.len() ==> is_digit(#[trigger] s[i])
}

/// The position of the first `.`, or the length when there is none.
pub open spec fn dot_position(s: Seq<char>) -> int
    decreases s.len(),
{
    if s.len() == 0 {
        0
    } else if s[0] == '.' {
        0
    } else {
        1 + dot_position(s.drop_first())
    }
}

/// The grammar of an amount: one or more integer digits, then optionally a
/// dot and up to four fractional digits.
pub open spec fn valid_amount_str(s: Seq<char>) -> bool {
    let dot = dot_position(s);
    let ip = s.take(dot);
    &&& 1 <= dot
    &&& all_digits(ip)
    &&& (dot == s.len() || {
        let fp = s.skip(dot + 1);
        &&& dot < s.len()
        &&& fp.len() <= 4
        &&& all_digits(fp)
    })
}

/// The number of 1/10000 units an amount string denotes.
pub open spec fn amount_units(s: Seq<char>) -> int {
    let dot = dot_position(s);
    let ip = s.take(dot);
    if dot == s.len() {
        digits_val(ip) * 10000
    } else {
        let fp = s.skip(dot + 1);
        digits_val(ip) * 10000 + digits_val(fp) * pad_factor(fp.len())
    }
}

/// The factor that scales a fraction of the given length to 1/10000 units.
pub open spec fn pad_factor(n: nat) -> int {
    if n == 0 {
        10000
    } else if n == 1 {
        1000
    } else if n == 2 {
        100
    } else if n == 3 {
        10
    } else {
        1
    }
}

/// Parses an amount string into 1/10000 units. Returns `None` when the
/// string breaks the grammar or the value does not fit.
pub fn parse_amount(s: &str) -> (r: Option<Amount>)
    ensures
        (r matches Some(a) ==> valid_amount_str(s@) && 0 <= amount_units(s@) <= u64::MAX
            && a.spec_units() == amount_units(s@)),
        (r is None ==> !valid_amount_str(s@) || amount_units(s@) > u64::MAX),
{
    let n = s.unicode_len();
    // Find the dot.
    let mut dot: usize = 0;
    while dot < n && s.get_char(dot) != '.'
        invariant
            dot <= n,
            n == s@.len(),
            forall|j: int| 0 <= j < dot as int ==> s@[j] != '.',
        decreases n - dot,
    {
        dot += 1;
    }
    proof {
        lemma_dot_position(s@, dot as int);
        assert(s@.take(dot as int) =~= s@.subrange(0, dot as int));
        if (dot as int) < s@.len() {
            assert(s@.skip(dot as int + 1) =~= s@.subrange(dot as int + 1, s@.len() as int));
        }
    }
    let ghost ip = s@.take(dot as int);
    if dot == 0 {
        return None;
    }
    // Integer part.
    let ip_val = match parse_digit_run(s, 0, dot) {
        None => {
            proof {
                if all_digits(ip) {
                    // The integer part alone already exceeds the unit type.
                    assert(digits_val(ip) > u64::MAX);
                    if (dot as int) < s@.len() {
                        let fp = s@.skip(dot as int + 1);
                        if all_digits(fp) {
                            lemma_digits_val_bounds(fp);
                            assert(pad_factor(fp.len()) >= 1);
                            vstd::arithmetic::mul::lemma_mul_nonnegative(
                                digits_val(fp),
                                pad_factor(fp.len()),
                            );
                        }
                    }
                }
            }
            return None;
        },
        Some(v) => v,
    };
    let frac: (u64, usize) = if dot == n {
        (0, 0)
    } else {
        let fplen = n - dot - 1;
        if fplen > 4 {
            return None;
        }
        match parse_digit_run(s, dot + 1, n) {
            None => {
                proof {
                    let fp = s@.skip(dot as int + 1);
                    if all_digits(fp) {
                        lemma_digits_val_upper(fp);
                        assert(pow10(fp.len()) <= 10000) by {
                            reveal_with_fuel(pow10, 5);
                        }
                    }
                }
                return None;
            },
            Some(v) => (v, fplen),
        }
    };
    let factor: u64 = if frac.1 == 0 {
        10000
    } else if frac.1 == 1 {
        1000
    } else if frac.1 == 2 {
        100
    } else if frac.1 == 3 {
        10
    } else {
        1
    };
    proof {
        if (dot as int) < s@.len() {
            let fp = s@.skip(dot as int + 1);
            lemma_digits_val_bounds(fp);
            lemma_digits_val_upper(fp);
            assert(pow10(fp.len()) <= 10000) by {
                reveal_with_fuel(pow10, 5);
            }
        }
    }
    let scaled_frac = frac.0 * factor;
    let whole = match ip_val.checked_mul(10000) {
        None => {
            return None;
        },
        Some(w) => w,
    };
    match whole.checked_add(scaled_frac) {
        None => None,
        Some(units) => Some(Amount::from_units(units)),
    }
}

/// A digit string's value is below ten to the power of its length.
proof fn lemma_digits_val_upper(s: Seq<char>)
    requires
        all_digits(s),
    ensures
        digits_val(s) < pow10(s.len()),
    decreases s.len(),
{
    if s.len() > 0 {
        assert(all_digits(s.drop_last())) by {
            assert(forall|i: int| 0 <= i < s.len() - 1 ==> s.drop_last()[i] == s[i]);
        }
        lemma_digits_val_upper(s.drop_last());
        lemma_digits_val_bounds(s.drop_last());
        assert(digit_val(s.last()) <= 9);
        assert(pow10(s.len()) == 10 * pow10((s.len() - 1) as nat));
    }
}

/// Parses the digit run `s[from..to]`; fails on a non-digit or overflow.
fn parse_digit_run(s: &str, from: usize, to: usize) -> (r: Option<u64>)
    requires
        from <= to <= s@.len(),
    ensures
        (r matches Some(v) ==> all_digits(s@.subrange(from as int, to as int)) && v == digits_val(
            s@.subrange(from as int, to as int),
        )),
        (r is None ==> !all_digits(s@.subrange(from as int, to as int)) || digits_val(
            s@.subrange(from as int, to as int),
        ) > u64::MAX),
{
    let ghost sub = s@.subrange(from as int, to as int);
    let mut acc: u64 = 0;
    let mut i: usize = from;
    while i < to
        invariant
            from <= i <= to <= s@.len(),
            sub == s@.subrange(from as int, to as int),
            all_digits(sub.take(i as int - from as int)),
            acc == digits_val(sub.take(i as int - from as int)),
        decreases to - i,
    {
        let ghost k = i as int - from as int;
        let c = s.get_char(i);
        proof {
            assert(sub[k] == s@[i as int]);
        }
        let u = c as u32;
        if !(48 <= u && u <= 57) {
            proof {
                assert(!is_digit(sub[k]));
            }
            return None;
        }
        proof {
            assert(all_digits(sub.take(k + 1))) by {
                assert(forall|j: int| 0 <= j < k + 1 ==> sub.take(k + 1)[j] == sub[j]);
                assert(forall|j: int| 0 <= j < k ==> sub.take(k)[j] == sub[j]);
            }
            assert(sub.take(k + 1).drop_last() =~= sub.take(k));
            assert(sub.take(k + 1).last() == sub[k]);
            assert(digits_val(sub.take(k + 1)) == acc * 10 + digit_val(sub[k]));
        }
        let d: u64 = (u - 48) as u64;
        proof {
            assert(d == digit_val(sub[k]));
        }
        let acc2 = match acc.checked_mul(10) {
            None => {
                proof {
                    lemma_digits_val_monotone(sub, k + 1);
                }
                return None;
            },
            Some(a) => a,
        };
        let acc3 = match acc2.checked_add(d) {
            None => {
                proof {
                    lemma_digits_val_monotone(sub, k + 1);
                }
                return None;
            },
            Some(a) => a,
        };
        acc = acc3;
        i += 1;
    }
    proof {
        assert(sub.take(to as int - from as int) =~= sub);
    }
    Some(acc)
}

/// Parses a client id: a non-empty digit string no larger than the id type.
pub fn parse_client(s: &str) -> (r: Option<ClientId>)
    ensures
        (r matches Some(v) ==> s@.len() >= 1 && all_digits(s@) && v == digits_val(s@)),
        (r is None ==> s@.len() == 0 || !all_digits(s@) || digits_val(s@) > u16::MAX),
{
    let n = s.unicode_len();
    proof {
        assert(s@.subrange(0, n as int) =~= s@);
    }
    if n == 0 {
        return None;
    }
    match parse_digit_run(s, 0, n) {
        None => None,
        Some(v) => {
            if v <= 0xFFFF {
                Some(v as u16)
            } else {
                None
            }
        },
    }
}

/// Parses a transaction id: a non-empty digit string no larger than the id
/// type.
pub fn parse_tx_id(s: &str) -> (r: Option<TxId>)
    ensures
        (r matches Some(v) ==> s@.len() >= 1 && all_digits(s@) && v == digits_val(s@)),
        (r is None ==> s@.len() == 0 || !all_digits(s@) || digits_val(s@) > u32::MAX),
{
    let n = s.unicode_len();
    proof {
        assert(s@.subrange(0, n as int) =~= s@);
    }
    if n == 0 {
        return None;
    }
    match parse_digit_run(s, 0, n) {
        None => None,
        Some(v) => {
            if v <= 0xFFFF_FFFF {
                Some(v as u32)
            } else {
                None
            }
        },
    }
}

/// What a whole record parses to: the type keyword, the two ids and — for
/// deposits and withdrawals only by presence, not by type — the amount. An
/// empty amount field parses to no amount.
pub open spec fn spec_parse_record(
    ty: Seq<char>,
    client: Seq<char>,
    tx: Seq<char>,
    amount: Seq<char>,
) -> Option<Transaction> {
    match spec_parse_tx_type(ty) {
        None => None,
        Some(tx_type) => {
            if !(client.len() >= 1 && all_digits(client) && digits_val(client) <= u16::MAX) {
                None
            } else if !(tx.len() >= 1 && all_digits(tx) && digits_val(tx) <= u32::MAX) {
                None
            } else if amount.len() == 0 {
                Some(
                    Transaction {
                        tx_type,
                        client: digits_val(client) as u16,
                        tx: digits_val(tx) as u32,
                        amount: None,
                    },
                )
            } else if valid_amount_str(amount) && amount_units(amount) <= u64::MAX {
                Some(
                    Transaction {
                        tx_type,
                        client: digits_val(client) as u16,
                        tx: digits_val(tx) as u32,
                        amount: Some(Amount { units: amount_units(amount) as u64 }),
                    },
                )
            } else {
                None
            }
        },
    }
}

/// Parses the four fields of one input record into a transaction; `None`
/// marks a malformed record, which callers skip.
pub fn parse_record(ty: &str, client: &str, tx: &str, amount: &str) -> (r: Option<Transaction>)
    ensures
        r == spec_parse_record(ty@, client@, tx@, amount@),
{
    let tx_type = match parse_tx_type(ty) {
        None => {
            return None;
        },
        Some(t) => t,
    };
    let client_id = match parse_client(client) {
        None => {
            return None;
        },
        Some(c) => c,
    };
    let tx_id = match parse_tx_id(tx) {
        None => {
            return None;
        },
        Some(x) => x,
    };
    if amount.unicode_len() == 0 {
        Some(Transaction { tx_type, client: client_id, tx: tx_id, amount: None })
    } else {
        match parse_amount(amount) {
            None => None,
            Some(a) => Some(Transaction { tx_type, client: client_id, tx: tx_id, amount: Some(a) }),
        }
    }
}

/// The digit character for a value below ten.
pub open spec fn digit_char(d: int) -> char {
    if d == 0 {
        '0'
    } else if d == 1 {
        '1'
    } else if d == 2 {
        '2'
    } else if d == 3 {
        '3'
    } else if d == 4 {
        '4'
    } else if d == 5 {
        '5'
    } else if d == 6 {
        '6'
    } else if d == 7 {
        '7'
    } else if d == 8 {
        '8'
    } else {
        '9'
    }
}

/// The decimal digits of a number, most significant first.
pub open spec fn spec_u64_digits(n: int) -> Seq<char>
    decreases n,
{
    if n <= 0 {
        seq!['0']
    } else if n < 10 {
        seq![digit_char(n)]
    } else {
        spec_u64_digits(n / 10) + seq![digit_char(n % 10)]
    }
}

/// The one-character string for a digit.
fn digit_str(d: u64) -> (r: &'static str)
    requires
        d < 10,
    ensures
        r@ == seq![digit_char(d as int)],
{
    proof {
        reveal_strlit("0");
        reveal_strlit("1");
        reveal_strlit("2");
        reveal_strlit("3");
        reveal_strlit("4");
        reveal_strlit("5");
        reveal_strlit("6");
        reveal_strlit("7");
        reveal_strlit("8");
        reveal_strlit("9");
    }
    if d == 0 {
        "0"
    } else if d == 1 {
        "1"
    } else if d == 2 {
        "2"
    } else if d == 3 {
        "3"
    } else if d == 4 {
        "4"
    } else if d == 5 {
        "5"
    } else if d == 6 {
        "6"
    } else if d == 7 {
        "7"
    } else if d == 8 {
        "8"
    } else {
        "9"
    }
}

/// Renders a number in decimal.
pub fn u64_to_string(n: u64) -> (r: String)
    ensures
        r@ == spec_u64_digits(n as int),
    decreases n,
{
    if n < 10 {
        digit_str(n).to_string()
    } else {
        let mut prefix = u64_to_string(n / 10);
        prefix.append(digit_str(n % 10));
        prefix
    }
}

/// The fixed four-digit rendering of an amount: the whole part in decimal,
/// a dot, and exactly four fractional digits.
pub open spec fn spec_render_amount(units: int) -> Seq<char> {
    let whole = units / 10000;
    let frac = units % 10000;
    spec_u64_digits(whole) + seq!['.'] + spec_pad4(frac)
}

/// Four fractional digits, zero-padded on the left.
pub open spec fn spec_pad4(frac: int) -> Seq<char> {
    if frac < 10 {
        seq!['0', '0', '0'] + spec_u64_digits(frac)
    } else if frac < 100 {
        seq!['0', '0'] + spec_u64_digits(frac)
    } else if frac < 1000 {
        seq!['0'] + spec_u64_digits(frac)
    } else {
        spec_u64_digits(frac)
    }
}

/// Renders an amount with exactly four fractional digits.
pub fn render_amount(a: Amount) -> (r: String)
    ensures
        r@ == spec_render_amount(a.spec_units()),
{
    let units = a.units();
    let whole = units / 10000;
    let frac = units % 10000;
    let mut out = u64_to_string(whole);
    proof {
        reveal_strlit(".");
        reveal_strlit("000");
        reveal_strlit("00");
        reveal_strlit("0");
        assert("."@ == seq!['.']);
        assert("000"@ == seq!['0', '0', '0']);
        assert("00"@ == seq!['0', '0']);
        assert("0"@ == seq!['0']);
    }
    out.append(".");
    if frac < 10 {
        out.append("000");
    } else if frac < 100 {
        out.append("00");
    } else if frac < 1000 {
        out.append("0");
    }
    let frac_str = u64_to_string(frac);
    out.append(frac_str.as_str());
    proof {
        assert(out@ =~= spec_render_amount(a.spec_units()));
    }
    out
}

/// One output row: client, the three balances with four fractional digits,
/// and the lock flag, comma-separated.
pub open spec fn spec_render_account_row(a: Account) -> Seq<char> {
    spec_u64_digits(a.client as int) + seq![','] + spec_render_amount(a.available.spec_units())
        + seq![','] + spec_render_amount(a.held.spec_units()) + seq![','] + spec_render_amount(
        a.total.spec_units(),
    ) + seq![','] + (if a.locked {
        "true"@
    } else {
        "false"@
    })
}

/// Renders one account as an output row, without the line ending.
pub fn render_account_row(a: &Account) -> (r: String)
    ensures
        r@ == spec_render_account_row(*a),
{
    proof {
        reveal_strlit(",");
        assert(","@ == seq![',']);
        reveal_strlit("true");
        reveal_strlit("false");
    }
    let mut out = u64_to_string(a.client as u64);
    out.append(",");
    let available = render_amount(a.available);
    out.append(available.as_str());
    out.append(",");
    let held = render_amount(a.held);
    out.append(held.as_str());
    out.append(",");
    let total = render_amount(a.total);
    out.append(total.as_str());
    out.append(",");
    if a.locked {
        out.append("true");
    } else {
        out.append("false");
    }
    proof {
        assert(out@ =~= spec_render_account_row(*a));
    }
    out
}

/// The decimal rendering of a number is a non-empty digit string — so it
/// holds no dot — and reading it back as digits yields the number.
pub proof fn lemma_u64_digits_props(n: int)
    requires
        0 <= n,
    ensures
        all_digits(spec_u64_digits(n)),
        1 <= spec_u64_digits(n).len(),
        digits_val(spec_u64_digits(n)) == n,
        forall|i: int|
            0 <= i < spec_u64_digits(n).len() ==> (#[trigger] spec_u64_digits(n)[i]) != '.',
    decreases n,
{
    let d = spec_u64_digits(n);
    if n < 10 {
        assert(d =~= seq![digit_char(n)]);
        assert(d.drop_last() =~= Seq::<char>::empty());
        assert(digits_val(Seq::<char>::empty()) == 0);
        assert(digits_val(d.drop_last()) == 0);
        assert(digits_val(d) == digits_val(d.drop_last()) * 10 + digit_val(d.last()));
    } else {
        lemma_u64_digits_props(n / 10);
        let prefix = spec_u64_digits(n / 10);
        assert(d == prefix + seq![digit_char(n % 10)]);
        assert(d.drop_last() =~= prefix);
        assert(d.last() == digit_char(n % 10));
        assert(digits_val(d) == digits_val(prefix) * 10 + digit_val(digit_char(n % 10)));
        assert forall|i: int| 0 <= i < d.len() implies is_digit(#[trigger] d[i]) && d[i] != '.' by {
            if i < prefix.len() {
                assert(d[i] == prefix[i]);
            } else {
                assert(d[i] == digit_char(n % 10));
            }
        }
    }
}

/// How many digits small numbers render to.
proof fn lemma_u64_digits_len_small(n: int)
    requires
        0 <= n < 10000,
    ensures
        spec_u64_digits(n).len() == if n < 10 {
            1int
        } else if n < 100 {
            2int
        } else if n < 1000 {
            3int
        } else {
            4int
        },
{
    if n >= 10 {
        assert(spec_u64_digits(n) == spec_u64_digits(n / 10) + seq![digit_char(n % 10)]);
        if n / 10 >= 10 {
            assert(spec_u64_digits(n / 10) == spec_u64_digits(n / 100) + seq![
                digit_char((n / 10) % 10),
            ]);
            if n / 100 >= 10 {
                assert(spec_u64_digits(n / 100) == spec_u64_digits(n / 1000) + seq![
                    digit_char((n / 100) % 10),
                ]);
            }
        }
    }
}

/// A leading zero does not change a digit string's value.
proof fn lemma_digits_val_zero_pad(s: Seq<char>)
    ensures
        digits_val(seq!['0'] + s) == digits_val(s),
    decreases s.len(),
{
    let z = seq!['0'] + s;
    if s.len() == 0 {
        assert(z =~= seq!['0']);
        assert(z.drop_last() =~= Seq::<char>::empty());
        assert(digits_val(Seq::<char>::empty()) == 0);
        assert(digits_val(z.drop_last()) == 0);
        assert(digits_val(z) == digits_val(z.drop_last()) * 10 + digit_val(z.last()));
        assert(digits_val(s) == 0);
    } else {
        assert(z.drop_last() =~= seq!['0'] + s.drop_last());
        assert(z.last() == s.last());
        lemma_digits_val_zero_pad(s.drop_last());
    }
}

/// Law: the fixed four-digit rendering of an amount is a well-formed
/// amount string, and parsing it yields the same number of units back:
/// rendering and parsing are inverse on amounts.
pub proof fn lemma_render_amount_parses_back(u: int)
    requires
        0 <= u <= u64::MAX,
    ensures
        valid_amount_str(spec_render_amount(u)),
        amount_units(spec_render_amount(u)) == u,
{
    let whole = u / 10000;
    let frac = u % 10000;
    let wd = spec_u64_digits(whole);
    let f4 = spec_pad4(frac);
    let s = spec_render_amount(u);
    lemma_u64_digits_props(whole);
    lemma_u64_digits_props(frac);
    lemma_u64_digits_len_small(frac);
    // The fraction is exactly four digits, zero-padded, worth `frac`.
    assert(f4.len() == 4 && all_digits(f4) && digits_val(f4) == frac && forall|i: int|
        0 <= i < f4.len() ==> (#[trigger] f4[i]) != '.') by {
        let fd = spec_u64_digits(frac);
        if frac < 10 {
            assert(f4 == seq!['0', '0', '0'] + fd);
            assert(seq!['0', '0', '0'] + fd =~= seq!['0'] + (seq!['0'] + (seq!['0'] + fd)));
            lemma_digits_val_zero_pad(fd);
            lemma_digits_val_zero_pad(seq!['0'] + fd);
            lemma_digits_val_zero_pad(seq!['0'] + (seq!['0'] + fd));
        } else if frac < 100 {
            assert(f4 == seq!['0', '0'] + fd);
            assert(seq!['0', '0'] + fd =~= seq!['0'] + (seq!['0'] + fd));
            lemma_digits_val_zero_pad(fd);
            lemma_digits_val_zero_pad(seq!['0'] + fd);
        } else if frac < 1000 {
            assert(f4 == seq!['0'] + fd);
            lemma_digits_val_zero_pad(fd);
        } else {
            assert(f4 == fd);
        }
    }
    // The first dot is the one the renderer wrote.
    assert(s.len() == wd.len() + 1 + 4);
    assert forall|j: int| 0 <= j < wd.len() implies s[j] != '.' by {
        assert(s[j] == wd[j]);
    }
    assert(s[wd.len() as int] == '.');
    lemma_dot_position(s, wd.len() as int);
    assert(s.take(wd.len() as int) =~= wd);
    assert(s.skip(wd.len() as int + 1) =~= f4);
    assert(pad_factor(4) == 1);
    assert(amount_units(s) == whole * 10000 + frac);
}

/// A digit string's value only grows as more digits arrive: if a prefix
/// already exceeds the unit type, the whole run does.
proof fn lemma_digits_val_monotone(s: Seq<char>, k: int)
    requires
        0 <= k <= s.len(),
        all_digits(s.take(k)),
    ensures
        digits_val(s.take(k)) <= digits_val(s) || !all_digits(s),
    decreases s.len() - k,
{
    if k < s.len() {
        if all_digits(s) {
            assert(all_digits(s.take(k + 1))) by {
                assert(forall|i: int| 0 <= i < k + 1 ==> s.take(k + 1)[i] == s[i]);
            }
            assert(s.take(k + 1).drop_last() =~= s.take(k));
            assert(s.take(k + 1).last() == s[k]);
            assert(digits_val(s.take(k + 1)) == digits_val(s.take(k)) * 10 + digit_val(s[k]));
            assert(digit_val(s[k]) >= 0);
            assert(digits_val(s.take(k)) >= 0) by {
                lemma_digits_val_bounds(s.take(k));
            }
            lemma_digits_val_monotone(s, k + 1);
            assert(s.take(s.len() as int) =~= s);
        }
    } else {
        assert(s.take(k) =~= s);
    }
}

/// A digit string's value is non-negative.
proof fn lemma_digits_val_bounds(s: Seq<char>)
    requires
        all_digits(s),
    ensures
        digits_val(s) >= 0,
    decreases s.len(),
{
    if s.len() > 0 {
        assert(all_digits(s.drop_last())) by {
            assert(forall|i: int| 0 <= i < s.len() - 1 ==> s.drop_last()[i] == s[i]);
        }
        lemma_digits_val_bounds(s.drop_last());
    }
}

/// The scan that stops at the first dot finds `dot_position`.
proof fn lemma_dot_position(s: Seq<char>, k: int)
    requires
        0 <= k <= s.len(),
        forall|j: int| 0 <= j < k ==> s[j] != '.',
        k < s.len() ==> s[k] == '.',
    ensures
        dot_position(s) == k,
    decreases s.len(),
{
    if s.len() > 0 {
        if k == 0 {
        } else {
            lemma_dot_position(s.drop_first(), k - 1);
        }
    }
}

} // verus!

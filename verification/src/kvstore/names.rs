//! The names of the log files: `db`, the id in decimal digits, padded with
//! zeros to twelve digits, and `.log`.

use crate::kvstore::KvStore;
use vstd::prelude::*;
use vstd::string::{StrSliceExecFns, StringExecFns};

verus! {

/// The character of the decimal digit `d`.
pub open spec fn digit_char(d: nat) -> char
    recommends
        d < 10,
{
    if d == 0 {
        '0'
    } else if d == 1 {
        '1'
    } else if d == 2 {
        '2'
    } else if d == 3 {
        '3'
    } else if d == 4 {
        '4'
    } else if d == 5 {
        '5'
    } else if d == 6 {
        '6'
    } else if d == 7 {
        '7'
    } else if d == 8 {
        '8'
    } else {
        '9'
    }
}

/// The decimal digit that a character stands for, if it is one.
pub open spec fn digit_value(c: char) -> Option<nat> {
    if c == '0' {
        Some(0)
    } else if c == '1' {
        Some(1)
    } else if c == '2' {
        Some(2)
    } else if c == '3' {
        Some(3)
    } else if c == '4' {
        Some(4)
    } else if c == '5' {
        Some(5)
    } else if c == '6' {
        Some(6)
    } else if c == '7' {
        Some(7)
    } else if c == '8' {
        Some(8)
    } else if c == '9' {
        Some(9)
    } else {
        None
    }
}

/// The decimal digits of `n`, without leading zeros.
pub open spec fn decimal(n: nat) -> Seq<char>
    decreases n,
{
    if n < 10 {
        seq![digit_char(n)]
    } else {
        decimal(n / 10).push(digit_char(n % 10))
    }
}

/// `k` zero digits.
pub open spec fn zeros(k: nat) -> Seq<char> {
    Seq::new(k, |i: int| '0')
}

/// The decimal digits of `n`, padded with leading zeros to twelve digits.
pub open spec fn padded(n: nat) -> Seq<char> {
    if decimal(n).len() >= 12 {
        decimal(n)
    } else {
        zeros((12 - decimal(n).len()) as nat) + decimal(n)
    }
}

/// What every log file name starts with.
pub open spec fn prefix() -> Seq<char> {
    seq!['d', 'b']
}

/// What every log file name ends with.
pub open spec fn suffix() -> Seq<char> {
    seq!['.', 'l', 'o', 'g']
}

/// The name of log file `id`.
pub open spec fn log_file_name(id: u64) -> Seq<char> {
    prefix() + padded(id as nat) + suffix()
}

/// Whether every character of `s` is a decimal digit.
pub open spec fn all_digits(s: Seq<char>) -> bool {
    forall|i: int| 0 <= i < s.len() ==> digit_value(#[trigger] s[i]) is Some
}

/// The number that the decimal digits `s` stand for.
pub open spec fn value(s: Seq<char>) -> nat
    decreases s.len(),
{
    if s.len() == 0 {
        0
    } else {
        value(s.drop_last()) * 10 + digit_value(s.last()).unwrap_or(0)
    }
}

/// The id that a log file name stands for: the name must be `db`, at least
/// twelve decimal digits of which the first is not a needless zero, and
/// `.log`; and the number must fit 64 bits.
pub open spec fn parse_log_file_name(s: Seq<char>) -> Option<u64> {
    let digits = s.subrange(2, s.len() - 4);
    if s.len() >= 18 && s.take(2) == prefix() && s.skip(s.len() - 4) == suffix() && all_digits(
        digits,
    ) && (digits.len() == 12 || digits[0] != '0') && value(digits) <= u64::MAX {
        Some(value(digits) as u64)
    } else {
        None
    }
}

/// The digits of a number are digits, they stand for the number, and the
/// first of several is not zero.
pub proof fn lemma_decimal(n: nat)
    ensures
        decimal(n).len() >= 1,
        all_digits(decimal(n)),
        value(decimal(n)) == n,
        decimal(n).len() > 1 ==> decimal(n)[0] != '0',
        n < 10 ==> decimal(n).len() == 1,
    decreases n,
{
    if n < 10 {
        let s = decimal(n);
        assert(s.drop_last() =~= Seq::<char>::empty());
        assert(value(s.drop_last()) == 0);
    } else {
        lemma_decimal(n / 10);
        let s = decimal(n);
        assert(s.drop_last() =~= decimal(n / 10));
        assert(s[0] == decimal(n / 10)[0]);
        if decimal(n / 10).len() == 1 {
            assert(value(decimal(n / 10)) == n / 10);
            let t = decimal(n / 10);
            assert(t.drop_last() =~= Seq::<char>::empty());
            assert(value(t.drop_last()) == 0);
        }
    }
}

/// Leading zeros do not change the number that digits stand for.
pub proof fn lemma_zeros_in_front(k: nat, s: Seq<char>)
    ensures
        value(zeros(k) + s) == value(s),
        all_digits(s) ==> all_digits(zeros(k) + s),
    decreases s.len(),
{
    let z = zeros(k) + s;
    if s.len() == 0 {
        assert(z =~= zeros(k));
        lemma_value_of_zeros(k);
    } else {
        lemma_zeros_in_front(k, s.drop_last());
        assert(z.drop_last() =~= zeros(k) + s.drop_last());
        assert(z.last() == s.last());
    }
    if all_digits(s) {
        assert forall|i: int| 0 <= i < z.len() implies digit_value(#[trigger] z[i]) is Some by {
            if i >= k {
                assert(z[i] == s[i - k]);
            }
        }
    }
}

/// Zeros stand for zero.
pub proof fn lemma_value_of_zeros(k: nat)
    ensures
        value(zeros(k)) == 0,
    decreases k,
{
    if k > 0 {
        lemma_value_of_zeros((k - 1) as nat);
        assert(zeros(k).drop_last() =~= zeros((k - 1) as nat));
    }
}

/// The name of a log file is read back as its id.
pub proof fn law_name_round_trip(id: u64)
    ensures
        parse_log_file_name(log_file_name(id)) == Some(id),
{
    let n = id as nat;
    let name = log_file_name(id);
    let p = padded(n);
    lemma_decimal(n);
    if decimal(n).len() < 12 {
        lemma_zeros_in_front((12 - decimal(n).len()) as nat, decimal(n));
    }
    assert(name.take(2) =~= prefix());
    assert(name.skip(name.len() - 4) =~= suffix());
    assert(name.subrange(2, name.len() - 4) =~= p);
}

/// The number that some digits stand for is no less than the number that the
/// first few of them stand for.
pub proof fn lemma_value_grows(s: Seq<char>, i: int)
    requires
        0 <= i <= s.len(),
    ensures
        value(s.take(i)) <= value(s),
    decreases s.len(),
{
    if i == s.len() {
        assert(s.take(i) =~= s);
    } else {
        lemma_value_grows(s.drop_last(), i);
        assert(s.drop_last().take(i) =~= s.take(i));
        assert(value(s.drop_last()) * 10 >= value(s.drop_last())) by (nonlinear_arith)
            requires
                value(s.drop_last()) >= 0,
        ;
    }
}

/// The one-character string of the decimal digit `d`.
fn digit_str(d: u64) -> (r: &'static str)
    requires
        d < 10,
    ensures
        r@ == seq![digit_char(d as nat)],
{
    proof {
        reveal_strlit("0");
        reveal_strlit("1");
        reveal_strlit("2");
        reveal_strlit("3");
        reveal_strlit("4");
        reveal_strlit("5");
        reveal_strlit("6");
        reveal_strlit("7");
        reveal_strlit("8");
        reveal_strlit("9");
    }
    let r = if d == 0 {
        "0"
    } else if d == 1 {
        "1"
    } else if d == 2 {
        "2"
    } else if d == 3 {
        "3"
    } else if d == 4 {
        "4"
    } else if d == 5 {
        "5"
    } else if d == 6 {
        "6"
    } else if d == 7 {
        "7"
    } else if d == 8 {
        "8"
    } else {
        "9"
    };
    assert(r@ =~= seq![digit_char(d as nat)]);
    r
}

/// The decimal digit that `c` stands for, if it is one.
fn digit_of(c: char) -> (r: Option<u64>)
    ensures
        match r {
            Some(d) => d < 10 && digit_value(c) == Some(d as nat),
            None => digit_value(c) is None,
        },
{
    if c == '0' {
        Some(0)
    } else if c == '1' {
        Some(1)
    } else if c == '2' {
        Some(2)
    } else if c == '3' {
        Some(3)
    } else if c == '4' {
        Some(4)
    } else if c == '5' {
        Some(5)
    } else if c == '6' {
        Some(6)
    } else if c == '7' {
        Some(7)
    } else if c == '8' {
        Some(8)
    } else if c == '9' {
        Some(9)
    } else {
        None
    }
}

/// Appends the decimal digits of `n` to `out`, and gives their number.
fn push_decimal(n: u64, out: &mut String) -> (count: usize)
    ensures
        final(out)@ == old(out)@ + decimal(n as nat),
        count == decimal(n as nat).len(),
        count <= 20,
    decreases n,
{
    if n < 10 {
        out.append(digit_str(n));
        1
    } else {
        let ghost before = out@;
        let front = push_decimal(n / 10, out);
        out.append(digit_str(n % 10));
        assert(out@ =~= before + decimal(n as nat));
        proof {
            lemma_decimal_len(n as nat);
        }
        front + 1
    }
}

/// A number below ten to the `k` has at most `k` digits; so a 64-bit number
/// has at most twenty.
pub proof fn lemma_decimal_len(n: nat)
    ensures
        n <= u64::MAX ==> decimal(n).len() <= 20,
{
    reveal_with_fuel(pow10, 21);
    lemma_decimal_bound(n, 20);
}

/// A number below ten to the `k` has at most `k` digits.
proof fn lemma_decimal_bound(n: nat, k: nat)
    requires
        k >= 1,
    ensures
        n < pow10(k) ==> decimal(n).len() <= k,
    decreases k,
{
    assert(pow10(k) == 10 * pow10((k - 1) as nat));
    assert(pow10(0) == 1);
    if n >= 10 && k > 1 {
        lemma_decimal_bound(n / 10, (k - 1) as nat);
    }
}

/// Ten to the `k`.
pub open spec fn pow10(k: nat) -> nat
    decreases k,
{
    if k == 0 {
        1
    } else {
        10 * pow10((k - 1) as nat)
    }
}

impl KvStore {
    /// The name of log file `log_id`: `db`, the id in decimal digits, padded
    /// with zeros to twelve digits, and `.log`.
    pub fn format_log_name(log_id: u64) -> (name: String)
        ensures
            name@ == log_file_name(log_id),
    {
        proof {
            reveal_strlit("db");
            reveal_strlit("0");
            reveal_strlit(".log");
        }
        let mut digits = String::new();
        let count = push_decimal(log_id, &mut digits);
        assert(digits@ =~= decimal(log_id as nat));
        let mut name = String::from_str("db");
        assert(name@ =~= prefix());
        let mut written: usize = count;
        while written < 12
            invariant
                count <= written,
                count == decimal(log_id as nat).len(),
                written <= 12 || written == count,
                name@ == prefix() + zeros((written - count) as nat),
            decreases 12 - written,
        {
            proof {
                reveal_strlit("0");
            }
            name.append("0");
            assert(name@ =~= prefix() + zeros((written + 1 - count) as nat));
            written = written + 1;
        }
        name.append(digits.as_str());
        name.append(".log");
        assert(".log"@ =~= suffix());
        assert(name@ =~= log_file_name(log_id)) by {
            if count >= 12 {
                assert(zeros(0) =~= Seq::<char>::empty());
            }
        }
        name
    }

    /// The id of the log file called `name`, if `name` is the name of a log
    /// file.
    pub fn parse_log_name(name: &str) -> (r: Option<u64>)
        ensures
            r == parse_log_file_name(name@),
    {
        let n = name.unicode_len();
        if n < 18 {
            return None;
        }
        if name.get_char(0) != 'd' || name.get_char(1) != 'b' {
            assert(name@.take(2)[0] == name@[0] && name@.take(2)[1] == name@[1]);
            return None;
        }
        let end = n - 4;
        if name.get_char(end) != '.' || name.get_char(end + 1) != 'l' || name.get_char(end + 2)
            != 'o' || name.get_char(end + 3) != 'g' {
            assert(name@.skip(end as int)[0] == name@[end as int] && name@.skip(end as int)[1]
                == name@[end + 1] && name@.skip(end as int)[2] == name@[end + 2] && name@.skip(
                end as int,
            )[3] == name@[end + 3]);
            return None;
        }
        assert(name@.take(2) =~= prefix());
        assert(name@.skip(end as int) =~= suffix());
        let ghost digits = name@.subrange(2, end as int);
        if end - 2 > 12 && name.get_char(2) == '0' {
            assert(digits[0] == name@[2]);
            return None;
        }
        let mut acc: u64 = 0;
        let mut i: usize = 2;
        while i < end
            invariant
                2 <= i <= end,
                end == n - 4,
                n == name@.len(),
                digits == name@.subrange(2, end as int),
                acc == value(digits.take(i - 2)),
                forall|k: int| 0 <= k < i - 2 ==> digit_value(#[trigger] digits[k]) is Some,
            decreases end - i,
        {
            let c = name.get_char(i);
            assert(digits[i - 2] == c);
            proof {
                assert(digits.take(i - 1).drop_last() =~= digits.take(i - 2));
                lemma_value_grows(digits, i - 1);
            }
            let d = match digit_of(c) {
                Some(d) => d,
                None => {
                    return None;
                },
            };
            let tens = match acc.checked_mul(10) {
                Some(t) => t,
                None => {
                    return None;
                },
            };
            acc = match tens.checked_add(d) {
                Some(a) => a,
                None => {
                    return None;
                },
            };
            i = i + 1;
        }
        assert(digits.take(end - 2) =~= digits);
        assert(digits[0] == name@[2]);
        Some(acc)
    }

    /// The ids of the log files among the directory entries called `names`,
    /// in ascending order. Entries whose names are not log file names are
    /// passed over.
    pub fn list_log_ids_sorted(names: &Vec<String>) -> (ids: Vec<u64>)
        ensures
            ascending(ids@),
            ids@.len() == log_names_among(names@, names@.len() as int),
            forall|id: u64| ids@.contains(id) <==> names_hold(names@, names@.len() as int, id),
    {
        let mut ids: Vec<u64> = Vec::new();
        let mut i: usize = 0;
        while i < names.len()
            invariant
                0 <= i <= names@.len(),
                ascending(ids@),
                ids@.len() == log_names_among(names@, i as int),
                forall|id: u64| ids@.contains(id) <==> names_hold(names@, i as int, id),
            decreases names@.len() - i,
        {
            let ghost before = ids@;
            match KvStore::parse_log_name(names[i].as_str()) {
                Some(id) => {
                    insert_ascending(&mut ids, id);
                    assert forall|x: u64| ids@.contains(x) <==> names_hold(
                        names@,
                        i + 1,
                        x,
                    ) by {
                        if names_hold(names@, i + 1, x) {
                            let k = choose|k: int|
                                0 <= k < i + 1 && parse_log_file_name(#[trigger] names@[k]@)
                                    == Some(x);
                            if k < i {
                                assert(names_hold(names@, i as int, x));
                            }
                        }
                        if before.contains(x) {
                            assert(names_hold(names@, i as int, x));
                            let k = choose|k: int|
                                0 <= k < i && parse_log_file_name(#[trigger] names@[k]@) == Some(
                                    x,
                                );
                            assert(0 <= k < i + 1);
                        }
                        if x == id {
                            assert(parse_log_file_name(names@[i as int]@) == Some(x));
                        }
                    }
                },
                None => {
                    assert forall|x: u64| ids@.contains(x) <==> names_hold(
                        names@,
                        i + 1,
                        x,
                    ) by {
                        if names_hold(names@, i + 1, x) {
                            let k = choose|k: int|
                                0 <= k < i + 1 && parse_log_file_name(#[trigger] names@[k]@)
                                    == Some(x);
                            assert(k < i);
                            assert(names_hold(names@, i as int, x));
                        }
                        if ids@.contains(x) {
                            assert(names_hold(names@, i as int, x));
                            let k = choose|k: int|
                                0 <= k < i && parse_log_file_name(#[trigger] names@[k]@) == Some(
                                    x,
                                );
                            assert(0 <= k < i + 1);
                        }
                    }
                },
            }
            i = i + 1;
        }
        ids
    }
}

/// Whether the numbers of `s` never go down.
pub open spec fn ascending(s: Seq<u64>) -> bool {
    forall|i: int, j: int| 0 <= i < j < s.len() ==> s[i] <= s[j]
}

/// The number of log file names among the first `n` of `names`.
pub open spec fn log_names_among(names: Seq<String>, n: int) -> nat
    decreases n,
{
    if n <= 0 {
        0
    } else if parse_log_file_name(names[n - 1]@) is Some {
        log_names_among(names, n - 1) + 1
    } else {
        log_names_among(names, n - 1)
    }
}

/// Whether one of the first `n` of `names` is the name of log file `id`.
pub open spec fn names_hold(names: Seq<String>, n: int, id: u64) -> bool {
    exists|k: int| 0 <= k < n && parse_log_file_name(#[trigger] names[k]@) == Some(id)
}

/// Puts `id` into the ascending `ids` at its place.
fn insert_ascending(ids: &mut Vec<u64>, id: u64)
    requires
        ascending(old(ids)@),
    ensures
        ascending(final(ids)@),
        final(ids)@.len() == old(ids)@.len() + 1,
        forall|x: u64| final(ids)@.contains(x) <==> (old(ids)@.contains(x) || x == id),
{
    let ghost before = ids@;
    let mut p: usize = 0;
    while p < ids.len() && ids[p] <= id
        invariant
            0 <= p <= ids@.len(),
            ids@ == before,
            forall|k: int| 0 <= k < p ==> before[k] <= id,
        decreases ids@.len() - p,
    {
        p = p + 1;
    }
    ids.insert(p, id);
    let ghost after = ids@;
    assert(after =~= before.insert(p as int, id));
    assert forall|i: int, j: int| 0 <= i < j < after.len() implies after[i] <= after[j] by {
        if i < p && j > p {
            assert(after[i] == before[i] && after[j] == before[j - 1]);
        } else if i > p {
            assert(after[i] == before[i - 1] && after[j] == before[j - 1]);
        } else if j < p {
            assert(after[i] == before[i] && after[j] == before[j]);
        } else if i == p {
            assert(after[j] == before[j - 1]);
            assert(before[p as int] <= before[j - 1]);
        }
    }
    assert forall|x: u64| after.contains(x) <==> (before.contains(x) || x == id) by {
        if after.contains(x) {
            let k = choose|k: int| 0 <= k < after.len() && after[k] == x;
            if k < p {
                assert(before[k] == x);
            } else if k > p {
                assert(before[k - 1] == x);
            }
        }
        if before.contains(x) {
            let k = choose|k: int| 0 <= k < before.len() && before[k] == x;
            if k < p {
                assert(after[k] == x);
            } else {
                assert(after[k + 1] == x);
            }
        }
        if x == id {
            assert(after[p as int] == x);
        }
    }
}

} // verus!

//! Cumulative transfer counters and the grammar of `transfer:` values:
//! comma-separated `<number> <unit> <label>` clauses, with binary byte
//! multipliers and exact truncating decimal arithmetic.

use vstd::arithmetic::div_mod::lemma_fundamental_div_mod_converse_div;
use vstd::arithmetic::div_mod::lemma_multiply_divide_lt;
use vstd::prelude::*;
use vstd::string::StrSliceExecFns;

use crate::numbers::all_digits;
use crate::numbers::digits_val;
use crate::numbers::lemma_digits_val_bound;
use crate::numbers::lemma_pow10_add;
use crate::numbers::lemma_pow10_monotone;
use crate::numbers::lemma_strip_zeros_determined;
use crate::numbers::lemma_strip_zeros_val;
use crate::numbers::check_all_digits;
use crate::numbers::parse_frac_digits;
use crate::numbers::parse_int_digits;
use crate::numbers::pow10;
use crate::numbers::pow10_u128;
use crate::numbers::strip_zeros;
use crate::parseutil::char_index;
use crate::parseutil::cleanwhite;
use crate::parseutil::find_char;
use crate::parseutil::lemma_char_index;
use crate::parseutil::str_eq;
use crate::parseutil::trimmed;

verus! {

/// Cumulative byte counts of one interface since its session began.
#[derive(Clone, Copy, Debug, PartialEq, Eq, Structural)]
pub struct Transfer {
    /// bytes received in total since the interface was activated
    pub received: usize,
    /// bytes sent in total since the interface was activated
    pub sent: usize,
}

/// Which component of a counter pair decreased.
#[derive(Clone, Copy, Debug, PartialEq, Eq, Structural)]
pub enum CounterDecrease {
    Received,
    Sent,
}

impl Transfer {
    /// Received and sent together.
    pub fn total(&self) -> (r: usize)
        requires
            self.received + self.sent <= usize::MAX,
        ensures
            r == self.received + self.sent,
    {
        self.received + self.sent
    }

    /// Component-wise difference `self - old`, or which component of
    /// `old` exceeds `self`.
    pub fn sub(&self, old: &Transfer) -> (r: Result<Transfer, CounterDecrease>)
        ensures
            match r {
                Ok(d) => old.received <= self.received && old.sent <= self.sent && d.received
                    == self.received - old.received && d.sent == self.sent - old.sent,
                Err(e) => (e == CounterDecrease::Received && old.received > self.received) || (e
                    == CounterDecrease::Sent && old.received <= self.received && old.sent
                    > self.sent),
            },
    {
        if old.received > self.received {
            return Err(CounterDecrease::Received);
        }
        if old.sent > self.sent {
            return Err(CounterDecrease::Sent);
        }
        Ok(Transfer { received: self.received - old.received, sent: self.sent - old.sent })
    }
}

/// How a `transfer:` value can be malformed.
#[derive(Clone, Copy, Debug, PartialEq, Eq, Structural)]
pub enum TransferError {
    /// A clause does not consist of exactly three space-separated parts.
    NotThreeParts,
    /// The first part of a clause is not a plain decimal number.
    BadNumber,
    /// The second part of a clause is not a known byte unit.
    BadUnit,
    /// The third part of a clause is neither `received` nor `sent`.
    BadLabel,
    /// A label occurs in more than one clause.
    DuplicateLabel,
    /// No clause carries the `received` label.
    MissingReceived,
    /// No clause carries the `sent` label.
    MissingSent,
    /// A byte count does not fit the machine, or a fraction carries more
    /// than twenty significant decimals.
    TooLarge,
}

/// The byte multiplier a unit name stands for: powers of 1024 from `B`
/// up to `EiB`.
pub open spec fn unit_mult(u: Seq<char>) -> Option<u64> {
    if u == "B"@ {
        Some(1u64)
    } else if u == "KiB"@ {
        Some(0x400u64)
    } else if u == "MiB"@ {
        Some(0x10_0000u64)
    } else if u == "GiB"@ {
        Some(0x4000_0000u64)
    } else if u == "TiB"@ {
        Some(0x100_0000_0000u64)
    } else if u == "PiB"@ {
        Some(0x4_0000_0000_0000u64)
    } else if u == "EiB"@ {
        Some(0x1000_0000_0000_0000u64)
    } else {
        None
    }
}

/// Read a unit name as its byte multiplier; `None` for an unknown unit.
pub fn parse_byte_multiplier(u: &str) -> (r: Option<u64>)
    ensures
        r == unit_mult(u@),
{
    if str_eq(u, "B") {
        Some(1u64)
    } else if str_eq(u, "KiB") {
        Some(0x400u64)
    } else if str_eq(u, "MiB") {
        Some(0x10_0000u64)
    } else if str_eq(u, "GiB") {
        Some(0x4000_0000u64)
    } else if str_eq(u, "TiB") {
        Some(0x100_0000_0000u64)
    } else if str_eq(u, "PiB") {
        Some(0x4_0000_0000_0000u64)
    } else if str_eq(u, "EiB") {
        Some(0x1000_0000_0000_0000u64)
    } else {
        None
    }
}

/// The digits before the first `.` of a number.
pub open spec fn num_int_part(s: Seq<char>) -> Seq<char> {
    s.subrange(0, char_index(s, '.'))
}

/// The digits after the first `.` of a number; empty when there is no `.`.
pub open spec fn num_frac_part(s: Seq<char>) -> Seq<char> {
    if char_index(s, '.') == s.len() {
        Seq::empty()
    } else {
        s.subrange(char_index(s, '.') + 1, s.len() as int)
    }
}

/// Is `s` a plain decimal number: digits, at most one `.`, at least one
/// digit overall?
pub open spec fn num_valid(s: Seq<char>) -> bool {
    &&& all_digits(num_int_part(s))
    &&& all_digits(num_frac_part(s))
    &&& num_int_part(s).len() + num_frac_part(s).len() >= 1
}

/// The value of the number `s` scaled by the multiplier `m` and
/// truncated to whole bytes.
pub open spec fn num_value(s: Seq<char>, m: int) -> int {
    let i = num_int_part(s);
    let f = num_frac_part(s);
    (digits_val(i) * pow10(f.len()) + digits_val(f)) * m / pow10(f.len())
}

/// Does the scaled value of `s` fit the machine, with at most twenty
/// significant fraction digits?
pub open spec fn num_fits(s: Seq<char>, m: int) -> bool {
    strip_zeros(num_frac_part(s)).len() <= 20 && num_value(s, m) <= usize::MAX
}

/// Scaling a split decimal number truncates exactly to the integer part
/// scaled plus the scaled fraction: with `f == fs * 10^(k - ks)` and
/// `fs < 10^ks`, `(i * 10^k + f) * m / 10^k == i * m + fs * m / 10^ks`.
proof fn lemma_num_value_split(i: int, f: int, fs: int, k: nat, ks: nat, m: int)
    requires
        i >= 0,
        m >= 1,
        fs >= 0,
        ks <= k,
        f == fs * pow10((k - ks) as nat),
        fs < pow10(ks),
    ensures
        (i * pow10(k) + f) * m / pow10(k) == i * m + fs * m / pow10(ks),
        fs * m / pow10(ks) < m,
        fs * m / pow10(ks) >= 0,
{
    let pk = pow10(k);
    let pks = pow10(ks);
    let pd = pow10((k - ks) as nat);
    lemma_pow10_monotone(0, ks);
    lemma_pow10_monotone(0, (k - ks) as nat);
    lemma_pow10_add(ks, (k - ks) as nat);
    assert(pk == pks * pd);
    let q = fs * m / pks;
    let r = fs * m % pks;
    assert(fs * m >= 0) by (nonlinear_arith)
        requires
            fs >= 0,
            m >= 1,
    ;
    vstd::arithmetic::div_mod::lemma_fundamental_div_mod(fs * m, pks);
    assert(0 <= r < pks);
    assert(q >= 0) by (nonlinear_arith)
        requires
            fs * m >= 0,
            pks >= 1,
            fs * m == q * pks + r,
            r < pks,
    ;
    // q < m since fs * m < pks * m
    assert(fs * m < pks * m) by (nonlinear_arith)
        requires
            fs < pks,
            m >= 1,
    ;
    lemma_multiply_divide_lt(fs * m, pks, m);
    // the whole numerator is (i * m + q) * pk + r * pd
    assert((i * pk + f) * m == (i * m + q) * pk + r * pd) by (nonlinear_arith)
        requires
            f == fs * pd,
            fs * m == q * pks + r,
            pk == pks * pd,
    ;
    assert(0 <= r * pd) by (nonlinear_arith)
        requires
            r >= 0,
            pd >= 1,
    ;
    assert(r * pd < pks * pd) by (nonlinear_arith)
        requires
            r < pks,
            pd >= 1,
    ;
    lemma_fundamental_div_mod_converse_div((i * pk + f) * m, pk, i * m + q, r * pd);
}

/// Reads `p0` as a decimal number scaled by `m`; `None` exactly when the
/// scaled value does not fit.
fn num_value_exec(p0: &str, m: u64) -> (r: Option<usize>)
    requires
        num_valid(p0@),
        1 <= m <= 0x1000_0000_0000_0000,
    ensures
        match r {
            Some(v) => num_fits(p0@, m as int) && v == num_value(p0@, m as int),
            None => !num_fits(p0@, m as int),
        },
{
    proof {
        lemma_char_index(p0@, '.');
    }
    let n = p0.unicode_len();
    let (ip, fp) = match find_char(p0, '.') {
        Some(k) => (p0.substring_char(0, k), p0.substring_char(k + 1, n)),
        None => {
            let ip = p0.substring_char(0, n);
            let fp = p0.substring_char(n, n);
            proof {
                assert(ip@ =~= num_int_part(p0@));
                assert(fp@ =~= num_frac_part(p0@));
            }
            (ip, fp)
        },
    };
    assert(ip@ == num_int_part(p0@));
    assert(fp@ == num_frac_part(p0@));
    let iv: u128 = match parse_int_digits(ip) {
        Some(v) => v,
        None => {
            proof {
                lemma_value_at_least_int(p0@, m as int);
            }
            return None;
        },
    };
    // strip the trailing zeros of the fraction
    let fn_ = fp.unicode_len();
    let mut e: usize = fn_;
    while e > 0
        invariant
            0 <= e <= fn_,
            fn_ == fp@.len(),
            forall|j: int| e <= j < fn_ ==> fp@[j] == '0',
        ensures
            0 <= e <= fn_,
            forall|j: int| e <= j < fn_ ==> fp@[j] == '0',
            e > 0 ==> fp@[e - 1] != '0',
        decreases e,
    {
        if fp.get_char(e - 1) != '0' {
            break;
        }
        e = e - 1;
    }
    proof {
        lemma_strip_zeros_determined(fp@, e as int);
        lemma_strip_zeros_val(fp@);
    }
    if e > 20 {
        return None;
    }
    let fs = fp.substring_char(0, e);
    assert(fs@ == strip_zeros(fp@));
    let fv: u128 = parse_frac_digits(fs);
    let pks: u128 = pow10_u128(e);
    proof {
        lemma_digits_val_bound(fs@);
        lemma_pow10_monotone(e as nat, 20);
        assert(pow10(20) == 100_000_000_000_000_000_000) by {
            reveal_with_fuel(pow10, 21);
        }
        lemma_num_value_split(
            iv as int,
            digits_val(fp@),
            fv as int,
            fp@.len(),
            e as nat,
            m as int,
        );
        assert(iv * (m as int) <= usize::MAX * 0x1000_0000_0000_0000int) by (nonlinear_arith)
            requires
                0 <= iv <= usize::MAX,
                1 <= m <= 0x1000_0000_0000_0000,
        ;
        assert(fv * (m as int) < 100_000_000_000_000_000_000int * 0x1000_0000_0000_0000int)
            by (nonlinear_arith)
            requires
                0 <= fv < 100_000_000_000_000_000_000int,
                1 <= m <= 0x1000_0000_0000_0000,
        ;
    }
    let im: u128 = iv * (m as u128);
    let fm: u128 = (fv * (m as u128)) / pks;
    let v: u128 = im + fm;
    if v > usize::MAX as u128 {
        return None;
    }
    Some(v as usize)
}

/// The scaled value of a number is at least the value of its integer
/// part.
proof fn lemma_value_at_least_int(s: Seq<char>, m: int)
    requires
        num_valid(s),
        m >= 1,
    ensures
        num_value(s, m) >= digits_val(num_int_part(s)),
{
    let i = digits_val(num_int_part(s));
    let f = digits_val(num_frac_part(s));
    let k = num_frac_part(s).len();
    lemma_digits_val_bound(num_int_part(s));
    lemma_digits_val_bound(num_frac_part(s));
    lemma_pow10_monotone(0, k);
    assert(f == f * pow10(0)) by (nonlinear_arith)
        requires
            pow10(0) == 1,
    ;
    lemma_num_value_split(i, f, f, k, k, m);
    assert(i * m >= i) by (nonlinear_arith)
        requires
            i >= 0,
            m >= 1,
    ;
    assert(f * m / pow10(k) >= 0);
}

/// Split `s` at every occurrence of `c`, keeping empty pieces.
pub open spec fn split_char_seq(s: Seq<char>, c: char) -> Seq<Seq<char>>
    decreases s.len(),
{
    let k = char_index(s, c);
    if 0 <= k < s.len() {
        seq![s.subrange(0, k)] + split_char_seq(s.subrange(k + 1, s.len() as int), c)
    } else {
        seq![s]
    }
}

/// What one clause contributes: its byte value and whether it is
/// labelled `received` (true) or `sent` (false).
pub open spec fn clause_spec(c: Seq<char>) -> Result<(usize, bool), TransferError> {
    let t = trimmed(c);
    let parts = split_char_seq(t, ' ');
    if parts.len() != 3 {
        Err(TransferError::NotThreeParts)
    } else if !num_valid(parts[0]) {
        Err(TransferError::BadNumber)
    } else {
        match unit_mult(parts[1]) {
            None => Err(TransferError::BadUnit),
            Some(m) => {
                if parts[2] == "received"@ {
                    if num_fits(parts[0], m as int) {
                        Ok((num_value(parts[0], m as int) as usize, true))
                    } else {
                        Err(TransferError::TooLarge)
                    }
                } else if parts[2] == "sent"@ {
                    if num_fits(parts[0], m as int) {
                        Ok((num_value(parts[0], m as int) as usize, false))
                    } else {
                        Err(TransferError::TooLarge)
                    }
                } else {
                    Err(TransferError::BadLabel)
                }
            },
        }
    }
}

/// Folds the clauses into a `Transfer`, requiring each label exactly
/// once and a total that fits the machine.
pub open spec fn transfer_spec_rec(
    cs: Seq<Seq<char>>,
    rcv: Option<usize>,
    snt: Option<usize>,
) -> Result<Transfer, TransferError>
    decreases cs.len(),
{
    if cs.len() == 0 {
        match rcv {
            None => Err(TransferError::MissingReceived),
            Some(r) => match snt {
                None => Err(TransferError::MissingSent),
                Some(s) => if r + s <= usize::MAX {
                    Ok(Transfer { received: r, sent: s })
                } else {
                    Err(TransferError::TooLarge)
                },
            },
        }
    } else {
        match clause_spec(cs[0]) {
            Err(e) => Err(e),
            Ok((v, is_received)) => {
                if is_received {
                    if rcv is Some {
                        Err(TransferError::DuplicateLabel)
                    } else {
                        transfer_spec_rec(cs.subrange(1, cs.len() as int), Some(v), snt)
                    }
                } else {
                    if snt is Some {
                        Err(TransferError::DuplicateLabel)
                    } else {
                        transfer_spec_rec(cs.subrange(1, cs.len() as int), rcv, Some(v))
                    }
                }
            },
        }
    }
}

/// A parsed transfer's two counters always total within the machine.
pub proof fn lemma_transfer_spec_wf(cs: Seq<Seq<char>>, rcv: Option<usize>, snt: Option<usize>)
    requires
        transfer_spec_rec(cs, rcv, snt) is Ok,
    ensures
        ({
            let t = transfer_spec_rec(cs, rcv, snt).unwrap();
            t.received + t.sent <= usize::MAX
        }),
    decreases cs.len(),
{
    if cs.len() == 0 {
    } else {
        match clause_spec(cs[0]) {
            Err(_) => {},
            Ok((v, is_received)) => {
                if is_received {
                    if !(rcv is Some) {
                        lemma_transfer_spec_wf(cs.subrange(1, cs.len() as int), Some(v), snt);
                    }
                } else {
                    if !(snt is Some) {
                        lemma_transfer_spec_wf(cs.subrange(1, cs.len() as int), rcv, Some(v));
                    }
                }
            },
        }
    }
}

/// What a whole `transfer:` value parses to.
pub open spec fn parse_transfer_spec(s: Seq<char>) -> Result<Transfer, TransferError> {
    transfer_spec_rec(split_char_seq(s, ','), None, None)
}

/// Reads one clause: `<number> <unit> <label>` after trimming.
fn clause_parse(c: &str) -> (r: Result<(usize, bool), TransferError>)
    ensures
        r == clause_spec(c@),
{
    let t = cleanwhite(c);
    let n = t.unicode_len();
    proof {
        lemma_char_index(t@, ' ');
    }
    let k1 = match find_char(t, ' ') {
        None => {
            assert(split_char_seq(t@, ' ') =~~= seq![t@]);
            return Err(TransferError::NotThreeParts);
        },
        Some(k) => k,
    };
    let p0 = t.substring_char(0, k1);
    let t1 = t.substring_char(k1 + 1, n);
    let n1 = t1.unicode_len();
    proof {
        lemma_char_index(t1@, ' ');
        assert(split_char_seq(t@, ' ') =~~= seq![p0@] + split_char_seq(t1@, ' '));
    }
    let k2 = match find_char(t1, ' ') {
        None => {
            assert(split_char_seq(t1@, ' ') =~~= seq![t1@]);
            assert(split_char_seq(t@, ' ').len() == 2);
            return Err(TransferError::NotThreeParts);
        },
        Some(k) => k,
    };
    let p1 = t1.substring_char(0, k2);
    let p2 = t1.substring_char(k2 + 1, n1);
    proof {
        lemma_char_index(p2@, ' ');
        assert(split_char_seq(t1@, ' ') =~~= seq![p1@] + split_char_seq(p2@, ' '));
    }
    if find_char(p2, ' ').is_some() {
        proof {
            let tail = p2@.subrange(char_index(p2@, ' ') + 1, p2@.len() as int);
            assert(split_char_seq(p2@, ' ') =~~= seq![
                p2@.subrange(0, char_index(p2@, ' ')),
            ] + split_char_seq(tail, ' '));
            assert(split_char_seq(t@, ' ').len() >= 4);
        }
        return Err(TransferError::NotThreeParts);
    }
    proof {
        assert(split_char_seq(p2@, ' ') =~~= seq![p2@]);
        assert(split_char_seq(t@, ' ') =~~= seq![p0@, p1@, p2@]);
    }
    // the number
    let dot = match find_char(p0, '.') {
        Some(k) => k,
        None => p0.unicode_len(),
    };
    proof {
        lemma_char_index(p0@, '.');
    }
    let ip = p0.substring_char(0, dot);
    let fp = if dot == p0.unicode_len() {
        p0.substring_char(dot, dot)
    } else {
        p0.substring_char(dot + 1, p0.unicode_len())
    };
    proof {
        assert(ip@ =~= num_int_part(p0@));
        if dot == p0@.len() {
            assert(fp@ =~= num_frac_part(p0@));
        }
    }
    if !(check_all_digits(ip) && check_all_digits(fp) && ip.unicode_len() + fp.unicode_len() >= 1) {
        return Err(TransferError::BadNumber);
    }
    // the unit
    let m = match parse_byte_multiplier(p1) {
        None => {
            return Err(TransferError::BadUnit);
        },
        Some(m) => m,
    };
    // the label
    let is_received = if str_eq(p2, "received") {
        true
    } else if str_eq(p2, "sent") {
        false
    } else {
        return Err(TransferError::BadLabel);
    };
    match num_value_exec(p0, m) {
        None => Err(TransferError::TooLarge),
        Some(v) => Ok((v, is_received)),
    }
}

/// Closes the fold: both labels must have been seen and the sum must fit.
fn finish_transfer(rcv: Option<usize>, snt: Option<usize>) -> (r: Result<Transfer, TransferError>)
    ensures
        r == transfer_spec_rec(Seq::<Seq<char>>::empty(), rcv, snt),
{
    match rcv {
        None => Err(TransferError::MissingReceived),
        Some(rv) => match snt {
            None => Err(TransferError::MissingSent),
            Some(sv) => {
                if rv <= usize::MAX - sv {
                    Ok(Transfer { received: rv, sent: sv })
                } else {
                    Err(TransferError::TooLarge)
                }
            },
        },
    }
}

/// Walks the comma-separated clauses of `s`, folding them with the
/// labels seen so far.
fn parse_transfer_rec(s: &str, rcv: Option<usize>, snt: Option<usize>) -> (r: Result<
    Transfer,
    TransferError,
>)
    ensures
        r == transfer_spec_rec(split_char_seq(s@, ','), rcv, snt),
    decreases s@.len(),
{
    proof {
        lemma_char_index(s@, ',');
    }
    let n = s.unicode_len();
    match find_char(s, ',') {
        None => {
            assert(split_char_seq(s@, ',') =~~= seq![s@]);
            let cs = Ghost(split_char_seq(s@, ','));
            match clause_parse(s) {
                Err(e) => Err(e),
                Ok((v, is_received)) => {
                    assert(cs@.subrange(1, cs@.len() as int) =~~= Seq::<Seq<char>>::empty());
                    if is_received {
                        if rcv.is_some() {
                            Err(TransferError::DuplicateLabel)
                        } else {
                            finish_transfer(Some(v), snt)
                        }
                    } else {
                        if snt.is_some() {
                            Err(TransferError::DuplicateLabel)
                        } else {
                            finish_transfer(rcv, Some(v))
                        }
                    }
                },
            }
        },
        Some(k) => {
            let clause = s.substring_char(0, k);
            let rest = s.substring_char(k + 1, n);
            proof {
                assert(split_char_seq(s@, ',') =~~= seq![clause@] + split_char_seq(rest@, ','));
            }
            let cs = Ghost(split_char_seq(s@, ','));
            match clause_parse(clause) {
                Err(e) => Err(e),
                Ok((v, is_received)) => {
                    assert(cs@.subrange(1, cs@.len() as int) =~~= split_char_seq(rest@, ','));
                    if is_received {
                        if rcv.is_some() {
                            Err(TransferError::DuplicateLabel)
                        } else {
                            parse_transfer_rec(rest, Some(v), snt)
                        }
                    } else {
                        if snt.is_some() {
                            Err(TransferError::DuplicateLabel)
                        } else {
                            parse_transfer_rec(rest, rcv, Some(v))
                        }
                    }
                },
            }
        },
    }
}

/// Read a whole `transfer:` value, e.g. `19.52 GiB received, 134.39 GiB
/// sent`, into a `Transfer`.
pub fn parse_transfer(s: &str) -> (r: Result<Transfer, TransferError>)
    ensures
        r == parse_transfer_spec(s@),
{
    parse_transfer_rec(s, None, None)
}

} // verus!

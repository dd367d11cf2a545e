use vstd::prelude::*;

use crate::event::{empty_row, EventRow, IngestError, LogType, OpType, RowView};

verus! {

/// Number of bytes of the timestamp that ends a write or default key.
pub const TS_LEN: usize = 8;

/// Tag of an inline short value inside a write or lock record.
pub const SHORT_VALUE_PREFIX: u8 = 0x76;

/// Tag of the `for_update_ts` field inside a lock record.
pub const FOR_UPDATE_TS_PREFIX: u8 = 0x66;

pub const FLAG_PUT: u8 = 0x50;

pub const FLAG_DELETE: u8 = 0x44;

pub const FLAG_LOCK: u8 = 0x4c;

pub const FLAG_ROLLBACK: u8 = 0x52;

pub const FLAG_PESSIMISTIC: u8 = 0x53;

pub open spec fn pow128(n: nat) -> int
    decreases n,
{
    if n == 0 {
        1
    } else {
        128 * pow128((n - 1) as nat)
    }
}

pub open spec fn pow256(n: nat) -> int
    decreases n,
{
    if n == 0 {
        1
    } else {
        256 * pow256((n - 1) as nat)
    }
}

/// The value of the first `n` bytes at `pos` read as base-128 digits, least
/// significant first, each byte giving its low seven bits.
pub open spec fn varint_acc(b: Seq<u8>, pos: int, n: nat) -> int
    decreases n,
{
    if n == 0 {
        0
    } else {
        varint_acc(b, pos, (n - 1) as nat) + (b[pos + n - 1] % 128) * pow128((n - 1) as nat)
    }
}

/// The unsigned varint at `pos`, given that its first `n` bytes carry the
/// continuation bit: its value and the position just past it. A varint has at
/// most ten bytes and its value fits in 64 bits.
pub open spec fn varint_from(b: Seq<u8>, pos: int, n: nat) -> Option<(u64, int)>
    decreases 10 - n,
{
    if n >= 10 || pos + n >= b.len() {
        None
    } else if b[pos + n] < 128 {
        if n == 9 && b[pos + n] > 1 {
            None
        } else {
            Some((varint_acc(b, pos, n + 1) as u64, pos + n + 1))
        }
    } else {
        varint_from(b, pos, n + 1)
    }
}

/// The unsigned varint that starts at `pos`.
pub open spec fn varint_at(b: Seq<u8>, pos: int) -> Option<(u64, int)> {
    varint_from(b, pos, 0)
}

/// The big-endian value of the `n` bytes at `pos`.
pub open spec fn be_value(b: Seq<u8>, pos: int, n: nat) -> int
    decreases n,
{
    if n == 0 {
        0
    } else {
        be_value(b, pos, (n - 1) as nat) * 256 + b[pos + n - 1]
    }
}

/// A key that ends in a timestamp: the bytes before it, and the timestamp,
/// stored big-endian and bitwise inverted.
pub open spec fn split_ts(key: Seq<u8>) -> Option<(Seq<u8>, u64)> {
    if key.len() < TS_LEN {
        None
    } else {
        let n = key.len() - TS_LEN;
        Some((key.subrange(0, n), (u64::MAX - be_value(key, n, 8)) as u64))
    }
}

proof fn lemma_pow128_bounds(n: nat)
    requires
        n <= 9,
    ensures
        1 <= pow128(n) <= 0x8000_0000_0000_0000,
        n <= 8 ==> pow128(n) <= 0x100_0000_0000_0000,
        n == 9 ==> pow128(n) == 0x8000_0000_0000_0000,
{
    reveal_with_fuel(pow128, 10);
}

proof fn lemma_pow256_bounds(n: nat)
    requires
        n <= 7,
    ensures
        1 <= pow256(n) <= 0x100_0000_0000_0000,
{
    reveal_with_fuel(pow256, 8);
}

/// Reads the unsigned varint that starts at `pos`.
pub fn decode_var_u64(b: &[u8], pos: usize) -> (r: Option<(u64, usize)>)
    requires
        pos <= b@.len(),
    ensures
        match r {
            Some((v, p)) => varint_at(b@, pos as int) == Some((v, p as int)) && pos < p <= b@.len(),
            None => varint_at(b@, pos as int) is None,
        },
{
    let mut x: u64 = 0;
    let mut pow: u64 = 1;
    let mut n: usize = 0;
    while n < 10
        invariant
            pos <= b@.len(),
            n <= 9,
            x == varint_acc(b@, pos as int, n as nat),
            pow == pow128(n as nat),
            x < pow,
            varint_at(b@, pos as int) == varint_from(b@, pos as int, n as nat),
        decreases 10 - n,
    {
        proof {
            lemma_pow128_bounds(n as nat);
        }
        if n >= b.len() - pos {
            return None;
        }
        let byte = b[pos + n];
        let low: u64 = (byte % 128) as u64;
        if n == 9 && byte > 1 {
            assert(varint_from(b@, pos as int, 10) is None);
            return None;
        }
        assert(low * pow <= 127 * pow) by (nonlinear_arith)
            requires
                low <= 127,
        ;
        assert(n == 9 ==> low * pow <= pow) by (nonlinear_arith)
            requires
                n == 9 ==> low <= 1,
        ;
        let next = x + low * pow;
        assert(next == varint_acc(b@, pos as int, (n + 1) as nat));
        if byte < 128 {
            return Some((next, pos + n + 1));
        }
        x = next;
        pow = pow * 128;
        n = n + 1;
        assert(pow == pow128(n as nat));
    }
    None
}

/// Splits a key into the bytes before its timestamp and the timestamp.
pub fn decode_ts_suffix(key: &[u8]) -> (r: Option<(usize, u64)>)
    ensures
        match r {
            Some((n, ts)) => split_ts(key@) == Some((key@.subrange(0, n as int), ts)) && n + 8
                == key@.len(),
            None => split_ts(key@) is None,
        },
{
    if key.len() < TS_LEN {
        return None;
    }
    let n = key.len() - TS_LEN;
    let mut x: u64 = 0;
    let mut i: usize = 0;
    while i < 8
        invariant
            n + 8 == key@.len(),
            key@.len() <= usize::MAX,
            i <= 8,
            x == be_value(key@, n as int, i as nat),
            x < pow256(i as nat),
        decreases 8 - i,
    {
        proof {
            if i < 8 {
                lemma_pow256_bounds(i as nat);
            }
        }
        let byte = key[n + i];
        assert(x * 256 + byte < pow256(i as nat) * 256) by (nonlinear_arith)
            requires
                x < pow256(i as nat),
                byte < 256,
        ;
        assert(pow256(i as nat) * 256 == pow256((i + 1) as nat));
        x = x * 256 + byte as u64;
        i = i + 1;
    }
    Some((n, u64::MAX - x))
}

/// Copies `b[start..end]` into a new vector.
pub fn copy_range(b: &[u8], start: usize, end: usize) -> (r: Vec<u8>)
    requires
        start <= end <= b@.len(),
    ensures
        r@ == b@.subrange(start as int, end as int),
{
    let mut r: Vec<u8> = Vec::new();
    let mut i: usize = start;
    while i < end
        invariant
            start <= i <= end <= b@.len(),
            r@ == b@.subrange(start as int, i as int),
        decreases end - i,
    {
        r.push(b[i]);
        i = i + 1;
        assert(r@ =~= b@.subrange(start as int, i as int));
    }
    r
}

/// The kind of a write record.
#[derive(Clone, Copy, Debug, PartialEq, Eq, Structural)]
pub enum WriteType {
    Put,
    Delete,
    Lock,
    Rollback,
}

/// The kind of a lock record.
#[derive(Clone, Copy, Debug, PartialEq, Eq, Structural)]
pub enum LockType {
    Put,
    Delete,
    Lock,
    Pessimistic,
}

/// A decoded write record: a transaction's commit or rollback of a key.
pub struct WriteRecord {
    pub write_type: WriteType,
    pub start_ts: u64,
    pub short_value: Option<Vec<u8>>,
}

/// A decoded lock record: a transaction's prewrite of a key.
pub struct LockRecord {
    pub lock_type: LockType,
    pub primary: Vec<u8>,
    pub ts: u64,
    pub short_value: Option<Vec<u8>>,
    pub for_update_ts: u64,
}

pub struct WriteView {
    pub write_type: WriteType,
    pub start_ts: u64,
    pub short_value: Option<Seq<u8>>,
}

pub struct LockView {
    pub lock_type: LockType,
    pub primary: Seq<u8>,
    pub ts: u64,
    pub short_value: Option<Seq<u8>>,
    pub for_update_ts: u64,
}

pub open spec fn opt_bytes(v: Option<Vec<u8>>) -> Option<Seq<u8>> {
    match v {
        Some(b) => Some(b@),
        None => None,
    }
}

impl View for WriteRecord {
    type V = WriteView;

    open spec fn view(&self) -> WriteView {
        WriteView {
            write_type: self.write_type,
            start_ts: self.start_ts,
            short_value: opt_bytes(self.short_value),
        }
    }
}

impl View for LockRecord {
    type V = LockView;

    open spec fn view(&self) -> LockView {
        LockView {
            lock_type: self.lock_type,
            primary: self.primary@,
            ts: self.ts,
            short_value: opt_bytes(self.short_value),
            for_update_ts: self.for_update_ts,
        }
    }
}

pub open spec fn write_type_of(b: u8) -> Option<WriteType> {
    if b == FLAG_PUT {
        Some(WriteType::Put)
    } else if b == FLAG_DELETE {
        Some(WriteType::Delete)
    } else if b == FLAG_LOCK {
        Some(WriteType::Lock)
    } else if b == FLAG_ROLLBACK {
        Some(WriteType::Rollback)
    } else {
        None
    }
}

pub open spec fn lock_type_of(b: u8) -> Option<LockType> {
    if b == FLAG_PUT {
        Some(LockType::Put)
    } else if b == FLAG_DELETE {
        Some(LockType::Delete)
    } else if b == FLAG_LOCK {
        Some(LockType::Lock)
    } else if b == FLAG_PESSIMISTIC {
        Some(LockType::Pessimistic)
    } else {
        None
    }
}

/// An optional short value at `p`: its tag, a length byte and that many
/// bytes. Gives the value, if there is one, and the position past it.
pub open spec fn short_value_at(v: Seq<u8>, p: int) -> Option<(Option<Seq<u8>>, int)> {
    if p < v.len() && v[p] == SHORT_VALUE_PREFIX {
        if p + 1 < v.len() && p + 2 + v[p + 1] <= v.len() {
            Some((Some(v.subrange(p + 2, p + 2 + v[p + 1])), p + 2 + v[p + 1]))
        } else {
            None
        }
    } else {
        Some((None, p))
    }
}

/// A write record: its type byte, the start timestamp as a varint, and an
/// optional short value that ends the record.
pub open spec fn parse_write_spec(v: Seq<u8>) -> Option<WriteView> {
    if v.len() == 0 {
        None
    } else {
        match write_type_of(v[0]) {
            None => None,
            Some(write_type) => match varint_at(v, 1) {
                None => None,
                Some((start_ts, p)) => match short_value_at(v, p) {
                    Some((short_value, q)) => if q == v.len() {
                        Some(WriteView { write_type, start_ts, short_value })
                    } else {
                        None
                    },
                    None => None,
                },
            },
        }
    }
}

/// An optional `for_update_ts` at `p`: its tag and a varint. Gives the value
/// (zero when absent) and the position past it.
pub open spec fn for_update_ts_at(v: Seq<u8>, p: int) -> Option<(u64, int)> {
    if p < v.len() && v[p] == FOR_UPDATE_TS_PREFIX {
        varint_at(v, p + 1)
    } else {
        Some((0, p))
    }
}

/// A lock record: its type byte, the primary key as a varint length and its
/// bytes, the start timestamp as a varint, an optional short value and an
/// optional `for_update_ts`, in that order. Fields after those, which later
/// writers may add, are skipped.
pub open spec fn parse_lock_spec(v: Seq<u8>) -> Option<LockView> {
    if v.len() == 0 {
        None
    } else {
        match lock_type_of(v[0]) {
            None => None,
            Some(lock_type) => match varint_at(v, 1) {
                None => None,
                Some((plen, after_len)) => if after_len + plen > v.len() {
                    None
                } else {
                    match varint_at(v, after_len + plen) {
                        None => None,
                        Some((ts, after_ts)) => match short_value_at(v, after_ts) {
                            None => None,
                            Some((short_value, after_short)) => match for_update_ts_at(v, after_short) {
                                None => None,
                                Some((for_update_ts, _)) => Some(
                                    LockView {
                                        lock_type,
                                        primary: v.subrange(after_len, after_len + plen),
                                        ts,
                                        short_value,
                                        for_update_ts,
                                    },
                                ),
                            },
                        },
                    }
                },
            },
        }
    }
}

fn write_type_from(b: u8) -> (r: Option<WriteType>)
    ensures
        r == write_type_of(b),
{
    if b == FLAG_PUT {
        Some(WriteType::Put)
    } else if b == FLAG_DELETE {
        Some(WriteType::Delete)
    } else if b == FLAG_LOCK {
        Some(WriteType::Lock)
    } else if b == FLAG_ROLLBACK {
        Some(WriteType::Rollback)
    } else {
        None
    }
}

fn lock_type_from(b: u8) -> (r: Option<LockType>)
    ensures
        r == lock_type_of(b),
{
    if b == FLAG_PUT {
        Some(LockType::Put)
    } else if b == FLAG_DELETE {
        Some(LockType::Delete)
    } else if b == FLAG_LOCK {
        Some(LockType::Lock)
    } else if b == FLAG_PESSIMISTIC {
        Some(LockType::Pessimistic)
    } else {
        None
    }
}

fn decode_short_value(v: &[u8], p: usize) -> (r: Option<(Option<Vec<u8>>, usize)>)
    requires
        p <= v@.len(),
    ensures
        match r {
            Some((sv, q)) => short_value_at(v@, p as int) == Some((opt_bytes(sv), q as int)),
            None => short_value_at(v@, p as int) is None,
        },
{
    if p < v.len() && v[p] == SHORT_VALUE_PREFIX {
        if p + 1 < v.len() && (v[p + 1] as usize) <= v.len() - p - 2 {
            let end = p + 2 + v[p + 1] as usize;
            let sv = copy_range(v, p + 2, end);
            Some((Some(sv), end))
        } else {
            None
        }
    } else {
        Some((None, p))
    }
}

/// Decodes a write record.
pub fn parse_write(v: &[u8]) -> (r: Option<WriteRecord>)
    ensures
        match r {
            Some(w) => parse_write_spec(v@) == Some(w@),
            None => parse_write_spec(v@) is None,
        },
{
    if v.len() == 0 {
        return None;
    }
    let write_type = match write_type_from(v[0]) {
        Some(t) => t,
        None => return None,
    };
    let (start_ts, p) = match decode_var_u64(v, 1) {
        Some(x) => x,
        None => return None,
    };
    let (short_value, q) = match decode_short_value(v, p) {
        Some(x) => x,
        None => return None,
    };
    if q != v.len() {
        return None;
    }
    Some(WriteRecord { write_type, start_ts, short_value })
}

/// Decodes a lock record.
pub fn parse_lock(v: &[u8]) -> (r: Option<LockRecord>)
    ensures
        match r {
            Some(l) => parse_lock_spec(v@) == Some(l@),
            None => parse_lock_spec(v@) is None,
        },
{
    if v.len() == 0 {
        return None;
    }
    let lock_type = match lock_type_from(v[0]) {
        Some(t) => t,
        None => return None,
    };
    let (plen, after_len) = match decode_var_u64(v, 1) {
        Some(x) => x,
        None => return None,
    };
    if plen > (v.len() - after_len) as u64 {
        return None;
    }
    let pend = after_len + plen as usize;
    let primary = copy_range(v, after_len, pend);
    let (ts, after_ts) = match decode_var_u64(v, pend) {
        Some(x) => x,
        None => return None,
    };
    let (short_value, after_short) = match decode_short_value(v, after_ts) {
        Some(x) => x,
        None => return None,
    };
    let (for_update_ts, _) = if after_short < v.len() && v[after_short] == FOR_UPDATE_TS_PREFIX {
        match decode_var_u64(v, after_short + 1) {
            Some(x) => x,
            None => return None,
        }
    } else {
        (0, after_short)
    };
    Some(LockRecord { lock_type, primary, ts, short_value, for_update_ts })
}

} // verus!

//! SQLite's variable-length integers: one to nine bytes, most significant
//! group first, seven payload bits in each of the first eight bytes and all
//! eight bits in the ninth.

use vstd::prelude::*;

verus! {

/// Number of bytes a decoder consumes from `bytes`, given that the first `k`
/// bytes all carried the continuation bit.
pub open spec fn varint_scan(bytes: Seq<u8>, k: nat) -> nat
    decreases 9 - k,
{
    if k >= bytes.len() || k >= 9 {
        k
    } else if k == 8 {
        9
    } else if bytes[k as int] < 0x80 {
        k + 1
    } else {
        varint_scan(bytes, k + 1)
    }
}

/// Number of bytes the varint at the start of `bytes` occupies: at most nine,
/// and at most `bytes.len()` when the input ends early.
pub open spec fn varint_len(bytes: Seq<u8>) -> nat {
    varint_scan(bytes, 0)
}

/// Unsigned value accumulated from the first `n` bytes of `bytes`.
pub open spec fn varint_acc(bytes: Seq<u8>, n: nat) -> nat
    recommends
        n <= 9,
        n <= bytes.len(),
    decreases n,
{
    if n == 0 {
        0
    } else if n == 9 {
        varint_acc(bytes, 8) * 256 + bytes[8] as nat
    } else {
        varint_acc(bytes, (n - 1) as nat) * 128 + (bytes[n - 1] % 128) as nat
    }
}

/// Reinterprets an unsigned 64-bit pattern as a two's complement integer.
pub open spec fn as_signed(u: nat) -> int {
    if u >= 0x8000_0000_0000_0000 {
        u - 0x1_0000_0000_0000_0000
    } else {
        u as int
    }
}

/// Reinterprets a two's complement integer as its unsigned 64-bit pattern.
pub open spec fn as_unsigned(v: int) -> nat {
    if v < 0 {
        (v + 0x1_0000_0000_0000_0000) as nat
    } else {
        v as nat
    }
}

/// The signed value of the varint at the start of `bytes`.
pub open spec fn varint_value(bytes: Seq<u8>) -> int {
    as_signed(varint_acc(bytes, varint_len(bytes)))
}

/// Upper bound of what `n` seven-bit groups can hold.
pub open spec fn group_bound(n: nat) -> nat
    decreases n,
{
    if n == 0 {
        1
    } else {
        128 * group_bound((n - 1) as nat)
    }
}

proof fn lemma_group_bound_values()
    ensures
        group_bound(0) == 1,
        group_bound(1) == 0x80,
        group_bound(2) == 0x4000,
        group_bound(3) == 0x20_0000,
        group_bound(4) == 0x1000_0000,
        group_bound(5) == 0x8_0000_0000,
        group_bound(6) == 0x400_0000_0000,
        group_bound(7) == 0x2_0000_0000_0000,
        group_bound(8) == 0x100_0000_0000_0000,
{
    reveal_with_fuel(group_bound, 10);
}

proof fn lemma_acc_bound(bytes: Seq<u8>, n: nat)
    requires
        n <= 8,
        n <= bytes.len(),
    ensures
        varint_acc(bytes, n) < group_bound(n),
    decreases n,
{
    if n > 0 {
        lemma_acc_bound(bytes, (n - 1) as nat);
        let a = varint_acc(bytes, (n - 1) as nat);
        let g = group_bound((n - 1) as nat);
        assert(a * 128 + 127 < 128 * g) by (nonlinear_arith)
            requires
                a < g,
        ;
    }
}

/// A varint read from a non-empty input occupies at least one byte.
pub proof fn lemma_varint_len_positive(bytes: Seq<u8>)
    requires
        bytes.len() > 0,
    ensures
        1 <= varint_len(bytes) <= 9,
        varint_len(bytes) <= bytes.len(),
{
    reveal_with_fuel(varint_scan, 10);
}

/// Whether `bytes` hold a whole varint at their start: a byte without the
/// continuation bit among them, or nine bytes at least.
pub open spec fn varint_whole(bytes: Seq<u8>) -> bool {
    bytes.len() >= 9 || exists|i: int| 0 <= i < bytes.len() && bytes[i] < 0x80
}

/// Decodes the varint at the start of `bytes`, returning its value and the
/// number of bytes it occupies, one to nine. `None` when `bytes` end before
/// the varint does.
pub fn parse_varint(bytes: &[u8]) -> (r: Option<(i64, usize)>)
    ensures
        r is Some <==> varint_whole(bytes@),
        r matches Some(d) ==> d.0 == varint_value(bytes@) && d.1 == varint_len(bytes@) && 1 <= d.1
            <= 9 && d.1 <= bytes@.len(),
{
    let mut value: u64 = 0;
    let mut len: usize = 0;
    while len < bytes.len() && len < 8
        invariant
            len <= 8,
            len <= bytes@.len(),
            value == varint_acc(bytes@, len as nat),
            varint_scan(bytes@, len as nat) == varint_len(bytes@),
            forall|i: int| 0 <= i < len ==> bytes@[i] >= 0x80,
        decreases 8 - len,
    {
        let byte: u8 = bytes[len];
        proof {
            lemma_acc_bound(bytes@, len as nat);
            lemma_acc_bound(bytes@, (len + 1) as nat);
            lemma_group_bound_values();
        }
        value = value * 128 + (byte % 128) as u64;
        len = len + 1;
        if byte < 0x80 {
            assert(bytes@[len - 1] < 0x80);
            return Some((to_signed(value), len));
        }
    }
    if len == 8 && len < bytes.len() {
        proof {
            lemma_acc_bound(bytes@, 8);
            lemma_group_bound_values();
        }
        value = value * 256 + bytes[8] as u64;
        return Some((to_signed(value), 9));
    }
    None
}

/// The two's complement reading of a 64-bit pattern.
fn to_signed(u: u64) -> (v: i64)
    ensures
        v == as_signed(u as nat),
{
    if u >= 0x8000_0000_0000_0000 {
        (u - 0x8000_0000_0000_0000) as i64 + i64::MIN
    } else {
        u as i64
    }
}

/// How many seven-bit groups it takes to hold `u`.
pub open spec fn group_count(u: nat) -> nat
    decreases u,
{
    if u < 128 {
        1
    } else {
        1 + group_count(u / 128)
    }
}

/// `n` bytes with the continuation bit set that carry the low `7 * n` bits of
/// `w`, most significant group first.
pub open spec fn continuation_groups(w: nat, n: nat) -> Seq<u8>
    decreases n,
{
    if n == 0 {
        Seq::empty()
    } else {
        continuation_groups(w / 128, (n - 1) as nat).push((128 + w % 128) as u8)
    }
}

/// The shortest varint that decodes to `v`: up to eight groups of seven bits
/// for patterns below 2^56, and the nine-byte form for all others.
pub open spec fn varint_encoding(v: int) -> Seq<u8> {
    let u = as_unsigned(v);
    if u < 0x100_0000_0000_0000 {
        continuation_groups(u / 128, (group_count(u) - 1) as nat).push((u % 128) as u8)
    } else {
        continuation_groups(u / 256, 8).push((u % 256) as u8)
    }
}

proof fn lemma_count_bound(u: nat, k: nat)
    requires
        1 <= k,
        u < group_bound(k),
    ensures
        1 <= group_count(u) <= k,
    decreases k,
{
    reveal_with_fuel(group_bound, 3);
    if u >= 128 {
        lemma_count_bound(u / 128, (k - 1) as nat);
    }
}

proof fn lemma_count_holds(u: nat)
    ensures
        u < group_bound(group_count(u)),
        u / 128 < group_bound((group_count(u) - 1) as nat),
    decreases u,
{
    reveal_with_fuel(group_bound, 3);
    if u >= 128 {
        lemma_count_holds(u / 128);
    }
}

proof fn lemma_groups_shape(w: nat, n: nat)
    ensures
        continuation_groups(w, n).len() == n,
        forall|i: int| 0 <= i < n ==> #[trigger] continuation_groups(w, n)[i] >= 128,
    decreases n,
{
    if n > 0 {
        lemma_groups_shape(w / 128, (n - 1) as nat);
    }
}

proof fn lemma_groups_acc(s: Seq<u8>, w: nat, n: nat)
    requires
        n <= 8,
        n <= s.len(),
        w < group_bound(n),
        forall|i: int| 0 <= i < n ==> s[i] == #[trigger] continuation_groups(w, n)[i],
    ensures
        varint_acc(s, n) == w,
    decreases n,
{
    if n > 0 {
        let m = (n - 1) as nat;
        lemma_groups_shape(w / 128, m);
        assert forall|i: int| 0 <= i < m implies s[i] == #[trigger] continuation_groups(
            w / 128,
            m,
        )[i] by {
            assert(continuation_groups(w, n)[i] == continuation_groups(w / 128, m)[i]);
        }
        lemma_groups_acc(s, w / 128, m);
        assert(s[n - 1] == continuation_groups(w, n)[n - 1]);
    }
}

proof fn lemma_scan_groups(s: Seq<u8>, m: nat, k: nat)
    requires
        k <= m <= 8,
        m < s.len(),
        forall|i: int| 0 <= i < m ==> #[trigger] s[i] >= 128,
        m < 8 ==> s[m as int] < 128,
    ensures
        varint_scan(s, k) == m + 1,
    decreases m - k,
{
    if k < m {
        lemma_scan_groups(s, m, k + 1);
    }
}

/// Decoding the varint that stands for `v` gives back `v` and the length of
/// the encoding, whatever bytes follow it.
pub proof fn lemma_varint_round_trip(v: i64, rest: Seq<u8>)
    ensures
        1 <= varint_encoding(v as int).len() <= 9,
        varint_whole(varint_encoding(v as int) + rest),
        varint_value(varint_encoding(v as int) + rest) == v,
        varint_len(varint_encoding(v as int) + rest) == varint_encoding(v as int).len(),
{
    let u = as_unsigned(v as int);
    let enc = varint_encoding(v as int);
    let s = enc + rest;
    lemma_group_bound_values();
    if u < 0x100_0000_0000_0000 {
        let n = group_count(u);
        let m = (n - 1) as nat;
        lemma_count_bound(u, 8);
        lemma_count_holds(u);
        lemma_groups_shape(u / 128, m);
        assert(enc.len() == n);
        assert forall|i: int| 0 <= i < m implies s[i] == #[trigger] continuation_groups(
            u / 128,
            m,
        )[i] by {
            assert(s[i] == enc[i]);
        }
        assert(s[m as int] == enc[m as int]);
        lemma_groups_acc(s, u / 128, m);
        lemma_scan_groups(s, m, 0);
        assert(varint_acc(s, n) == u);
    } else {
        lemma_groups_shape(u / 256, 8);
        assert(enc.len() == 9);
        assert forall|i: int| 0 <= i < 8 implies s[i] == #[trigger] continuation_groups(
            u / 256,
            8,
        )[i] by {
            assert(s[i] == enc[i]);
        }
        assert(s[8] == enc[8]);
        lemma_groups_acc(s, u / 256, 8);
        lemma_scan_groups(s, 8, 0);
        assert(varint_acc(s, 9) == u);
    }
}

/// The 64-bit pattern of a two's complement integer.
fn to_unsigned(v: i64) -> (u: u64)
    ensures
        u == as_unsigned(v as int),
{
    if v < 0 {
        (v - i64::MIN) as u64 + 0x8000_0000_0000_0000
    } else {
        v as u64
    }
}

fn count_groups(u: u64) -> (n: usize)
    ensures
        n == group_count(u as nat),
        1 <= n <= 10,
    decreases u,
{
    proof {
        reveal_with_fuel(group_bound, 11);
        lemma_count_bound(u as nat, 10);
    }
    if u < 128 {
        1
    } else {
        1 + count_groups(u / 128)
    }
}

fn push_groups(w: u64, n: usize, out: &mut Vec<u8>)
    ensures
        final(out)@ == old(out)@ + continuation_groups(w as nat, n as nat),
    decreases n,
{
    if n > 0 {
        push_groups(w / 128, n - 1, out);
        out.push((128 + w % 128) as u8);
        assert(final(out)@ =~= old(out)@ + continuation_groups(w as nat, n as nat));
    } else {
        assert(out@ =~= old(out)@ + continuation_groups(w as nat, n as nat));
    }
}

/// Encodes `value` as the shortest varint that `parse_varint` reads back as
/// `value`.
pub fn encode_varint(value: i64) -> (out: Vec<u8>)
    ensures
        out@ == varint_encoding(value as int),
        1 <= out@.len() <= 9,
        varint_whole(out@),
        varint_value(out@) == value,
        varint_len(out@) == out@.len(),
{
    proof {
        lemma_varint_round_trip(value, Seq::empty());
        assert(varint_encoding(value as int) + Seq::<u8>::empty() =~= varint_encoding(
            value as int,
        ));
    }
    let u = to_unsigned(value);
    let mut out: Vec<u8> = Vec::new();
    if u < 0x100_0000_0000_0000 {
        let n = count_groups(u);
        push_groups(u / 128, n - 1, &mut out);
        out.push((u % 128) as u8);
    } else {
        push_groups(u / 256, 8, &mut out);
        out.push((u % 256) as u8);
    }
    assert(out@ =~= varint_encoding(value as int));
    out
}

} // verus!

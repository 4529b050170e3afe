//! Big-endian numbers and length-prefixed bytes.

use vstd::prelude::*;
use vstd::slice::*;

verus! {

/// How many values fit into `width` bytes.
pub open spec fn capacity(width: nat) -> nat
    decreases width,
{
    if width == 0 {
        1
    } else {
        256 * capacity((width - 1) as nat)
    }
}

/// The last `width` bytes of a number, the highest first.
pub open spec fn be_bytes(n: nat, width: nat) -> Seq<u8>
    decreases width,
{
    if width == 0 {
        Seq::empty()
    } else {
        be_bytes(n / 256, (width - 1) as nat).push((n % 256) as u8)
    }
}

/// The number that bytes stand for, the highest first.
pub open spec fn be_value(bytes: Seq<u8>) -> nat
    decreases bytes.len(),
{
    if bytes.len() == 0 {
        0
    } else {
        256 * be_value(bytes.drop_last()) + bytes.last() as nat
    }
}

pub proof fn lemma_be_bytes_len(n: nat, width: nat)
    ensures
        be_bytes(n, width).len() == width,
    decreases width,
{
    if width > 0 {
        lemma_be_bytes_len(n / 256, (width - 1) as nat);
    }
}

/// A number that fits is read back from its bytes.
pub proof fn lemma_value_of_bytes(n: nat, width: nat)
    requires
        n < capacity(width),
    ensures
        be_value(be_bytes(n, width)) == n,
    decreases width,
{
    if width > 0 {
        let rest = (width - 1) as nat;
        assert(n / 256 < capacity(rest));
        lemma_value_of_bytes(n / 256, rest);
        assert(be_bytes(n, width).drop_last() =~= be_bytes(n / 256, rest));
    }
}

/// Bytes are written back from their number.
pub proof fn lemma_bytes_of_value(bytes: Seq<u8>)
    ensures
        be_bytes(be_value(bytes), bytes.len()) == bytes,
        be_value(bytes) < capacity(bytes.len()),
    decreases bytes.len(),
{
    if bytes.len() > 0 {
        let init = bytes.drop_last();
        lemma_bytes_of_value(init);
        let n = be_value(bytes);
        assert(n / 256 == be_value(init));
        assert(n % 256 == bytes.last() as nat);
        assert(be_bytes(n, bytes.len()) =~= init.push(bytes.last()));
        assert(init.push(bytes.last()) =~= bytes);
    } else {
        assert(be_bytes(0, 0) =~= bytes);
    }
}

pub proof fn lemma_capacities()
    ensures
        capacity(1) == 0x100,
        capacity(2) == 0x1_0000,
        capacity(4) == 0x1_0000_0000,
        capacity(8) == 0x1_0000_0000_0000_0000,
{
    reveal_with_fuel(capacity, 9);
}

/// Writes the last `width` bytes of a number.
pub fn push_be(output: &mut Vec<u8>, value: u64, width: usize)
    ensures
        final(output)@ == old(output)@ + be_bytes(value as nat, width as nat),
    decreases width,
{
    if width > 0 {
        push_be(output, value / 256, width - 1);
        output.push((value % 256) as u8);
        proof {
            let head = be_bytes((value / 256) as nat, (width - 1) as nat);
            assert(old(output)@ + head.push((value % 256) as u8) =~= (old(output)@ + head).push(
                (value % 256) as u8,
            ));
        }
    } else {
        proof {
            assert(old(output)@ + Seq::<u8>::empty() =~= old(output)@);
        }
    }
}

/// Reads a number of at most eight bytes.
pub fn read_be(bytes: &[u8]) -> (value: u64)
    requires
        bytes@.len() <= 8,
    ensures
        value == be_value(bytes@),
{
    let mut value: u64 = 0;
    let mut at: usize = 0;
    proof {
        assert(bytes@.take(0) =~= Seq::<u8>::empty());
    }
    while at < bytes.len()
        invariant
            at <= bytes@.len() <= 8,
            value == be_value(bytes@.take(at as int)),
        decreases bytes.len() - at,
    {
        proof {
            let head = bytes@.take(at as int);
            lemma_bytes_of_value(head);
            lemma_capacities();
            reveal_with_fuel(capacity, 9);
            assert(bytes@.take(at + 1).drop_last() =~= head);
            assert(bytes@.take(at + 1).last() == bytes@[at as int]);
        }
        value = value * 256 + bytes[at] as u64;
        at = at + 1;
    }
    proof {
        assert(bytes@.take(bytes@.len() as int) =~= bytes@);
    }
    value
}

/// Appends bytes.
pub fn push_bytes(output: &mut Vec<u8>, bytes: &[u8])
    ensures
        final(output)@ == old(output)@ + bytes@,
{
    let mut at: usize = 0;
    while at < bytes.len()
        invariant
            at <= bytes@.len(),
            output@ == old(output)@ + bytes@.take(at as int),
        decreases bytes.len() - at,
    {
        output.push(bytes[at]);
        at = at + 1;
        proof {
            assert(bytes@.take(at as int) =~= bytes@.take(at - 1).push(bytes@[at - 1]));
            assert(output@ =~= old(output)@ + bytes@.take(at as int));
        }
    }
    proof {
        assert(bytes@.take(bytes@.len() as int) =~= bytes@);
    }
}

/// A copy of bytes.
pub fn copy_bytes(bytes: &[u8]) -> (copy: Vec<u8>)
    ensures
        copy@ == bytes@,
{
    let mut copy: Vec<u8> = Vec::new();
    push_bytes(&mut copy, bytes);
    proof {
        assert(Seq::<u8>::empty() + bytes@ =~= bytes@);
    }
    copy
}

pub fn same_bytes(a: &[u8], b: &[u8]) -> (same: bool)
    ensures
        same == (a@ == b@),
{
    if a.len() != b.len() {
        return false;
    }
    let mut at: usize = 0;
    while at < a.len()
        invariant
            at <= a@.len(),
            a@.len() == b@.len(),
            forall|i: int| 0 <= i < at ==> a@[i] == b@[i],
        decreases a.len() - at,
    {
        if a[at] != b[at] {
            return false;
        }
        at = at + 1;
    }
    proof {
        assert(a@ =~= b@);
    }
    true
}

pub fn has_byte(bytes: &[u8], byte: u8) -> (yes: bool)
    ensures
        yes == bytes@.contains(byte),
{
    let mut at: usize = 0;
    while at < bytes.len()
        invariant
            at <= bytes@.len(),
            forall|k: int| 0 <= k < at ==> bytes@[k] != byte,
        decreases bytes.len() - at,
    {
        if bytes[at] == byte {
            return true;
        }
        at = at + 1;
    }
    false
}

// ---------------------------------------------------------------------------
// Order
// ---------------------------------------------------------------------------
/// The order of byte strings by their first different byte.
pub open spec fn bytes_less(a: Seq<u8>, b: Seq<u8>) -> bool
    decreases a.len(),
{
    if b.len() == 0 {
        false
    } else if a.len() == 0 {
        true
    } else if a[0] != b[0] {
        a[0] < b[0]
    } else {
        bytes_less(a.drop_first(), b.drop_first())
    }
}

/// Whether a byte string comes before another.
pub fn bytes_before(a: &[u8], b: &[u8]) -> (yes: bool)
    ensures
        yes == bytes_less(a@, b@),
{
    let mut at: usize = 0;
    proof {
        assert(a@.skip(0) =~= a@);
        assert(b@.skip(0) =~= b@);
    }
    while at < a.len() && at < b.len() && a[at] == b[at]
        invariant
            at <= a@.len(),
            at <= b@.len(),
            bytes_less(a@, b@) == bytes_less(a@.skip(at as int), b@.skip(at as int)),
        decreases a.len() - at,
    {
        proof {
            assert(a@.skip(at as int).drop_first() =~= a@.skip(at + 1));
            assert(b@.skip(at as int).drop_first() =~= b@.skip(at + 1));
            assert(a@.skip(at as int)[0] == a@[at as int]);
            assert(b@.skip(at as int)[0] == b@[at as int]);
        }
        at = at + 1;
    }
    proof {
        if at < a@.len() {
            assert(a@.skip(at as int)[0] == a@[at as int]);
        }
        if at < b@.len() {
            assert(b@.skip(at as int)[0] == b@[at as int]);
        }
    }
    if at == b.len() {
        false
    } else if at == a.len() {
        true
    } else {
        a[at] < b[at]
    }
}

pub proof fn lemma_bytes_less_irreflexive(a: Seq<u8>)
    ensures
        !bytes_less(a, a),
    decreases a.len(),
{
    if a.len() > 0 {
        lemma_bytes_less_irreflexive(a.drop_first());
    }
}

pub proof fn lemma_bytes_less_transitive(a: Seq<u8>, b: Seq<u8>, c: Seq<u8>)
    requires
        bytes_less(a, b),
        bytes_less(b, c),
    ensures
        bytes_less(a, c),
    decreases a.len(),
{
    if a.len() > 0 && b.len() > 0 && c.len() > 0 && a[0] == b[0] && b[0] == c[0] {
        lemma_bytes_less_transitive(a.drop_first(), b.drop_first(), c.drop_first());
    }
}

pub proof fn lemma_bytes_less_total(a: Seq<u8>, b: Seq<u8>)
    ensures
        bytes_less(a, b) || bytes_less(b, a) || a == b,
    decreases a.len(),
{
    if a.len() == 0 || b.len() == 0 {
        assert(a.len() == 0 && b.len() == 0 ==> a =~= b);
    } else if a[0] == b[0] {
        lemma_bytes_less_total(a.drop_first(), b.drop_first());
        if a.drop_first() == b.drop_first() {
            assert(a =~= seq![a[0]] + a.drop_first());
            assert(b =~= seq![b[0]] + b.drop_first());
        }
    }
}

/// Numbers are written with their highest byte first.
pub proof fn lemma_highest_byte_comes_first(n: nat, width: nat, bytes: Seq<u8>, byte: u8)
    ensures
        be_value(Seq::empty()) == 0,
        be_value(bytes.push(byte)) == 256 * be_value(bytes) + byte,
        width > 0 ==> be_bytes(n, width) == be_bytes(n / 256, (width - 1) as nat).push(
            (n % 256) as u8,
        ),
{
    assert(bytes.push(byte).drop_last() =~= bytes);
}

} // verus!

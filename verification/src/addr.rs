use vstd::prelude::*;

verus! {

/// An on-chain address as its payload: the public key of an account or the
/// hash of a contract, 32 bytes either way.
#[derive(Clone, Copy, Debug, PartialEq, Eq)]
pub enum Addr {
    Account([u8; 32]),
    Contract([u8; 32]),
}

/// Byte-wise equality of two 32-byte arrays.
pub fn bytes32_eq(a: &[u8; 32], b: &[u8; 32]) -> (r: bool)
    ensures
        r == (*a == *b),
{
    let mut i: usize = 0;
    while i < 32
        invariant
            0 <= i <= 32,
            forall|j: int| 0 <= j < i ==> a@[j] == b@[j],
        decreases 32 - i,
    {
        if a[i] != b[i] {
            assert(a@[i as int] != b@[i as int]);
            return false;
        }
        i = i + 1;
    }
    assert(*a =~= *b);
    true
}

/// Whether two addresses are the same.
pub fn same_addr(a: &Addr, b: &Addr) -> (r: bool)
    ensures
        r == (*a == *b),
{
    match (a, b) {
        (Addr::Account(x), Addr::Account(y)) => bytes32_eq(x, y),
        (Addr::Contract(x), Addr::Contract(y)) => bytes32_eq(x, y),
        _ => false,
    }
}

/// The XDR encoding of an address as a contract value: the value tag of an
/// address, the address kind, for an account the key type, then the payload.
pub open spec fn addr_xdr(a: Addr) -> Seq<u8> {
    match a {
        Addr::Account(k) => seq![0u8, 0u8, 0u8, 18u8, 0u8, 0u8, 0u8, 0u8, 0u8, 0u8, 0u8, 0u8] + k@,
        Addr::Contract(k) => seq![0u8, 0u8, 0u8, 18u8, 0u8, 0u8, 0u8, 1u8] + k@,
    }
}

fn push_all(out: &mut Vec<u8>, bytes: &[u8; 32])
    ensures
        final(out)@ == old(out)@ + bytes@,
{
    let mut i: usize = 0;
    while i < 32
        invariant
            0 <= i <= 32,
            out@ == old(out)@ + bytes@.take(i as int),
        decreases 32 - i,
    {
        out.push(bytes[i]);
        assert(bytes@.take(i + 1) =~= bytes@.take(i as int).push(bytes@[i as int]));
        i = i + 1;
    }
    assert(bytes@.take(32) =~= bytes@);
}

/// Appends the XDR encoding of `a` to `out`.
pub fn append_xdr(out: &mut Vec<u8>, a: &Addr)
    ensures
        final(out)@ == old(out)@ + addr_xdr(*a),
{
    out.push(0);
    out.push(0);
    out.push(0);
    out.push(18);
    out.push(0);
    out.push(0);
    out.push(0);
    match a {
        Addr::Account(k) => {
            out.push(0);
            out.push(0);
            out.push(0);
            out.push(0);
            out.push(0);
            push_all(out, k);
            assert(final(out)@ =~= old(out)@ + addr_xdr(*a));
        },
        Addr::Contract(k) => {
            out.push(1);
            push_all(out, k);
            assert(final(out)@ =~= old(out)@ + addr_xdr(*a));
        },
    }
}

/// The XDR encoding of `a`.
pub fn to_xdr(a: &Addr) -> (v: Vec<u8>)
    ensures
        v@ == addr_xdr(*a),
{
    let mut v: Vec<u8> = Vec::new();
    append_xdr(&mut v, a);
    assert(v@ =~= addr_xdr(*a));
    v
}

/// Two addresses with the same encoding are the same address.
pub proof fn lemma_addr_xdr_injective(a: Addr, b: Addr)
    requires
        addr_xdr(a) == addr_xdr(b),
    ensures
        a == b,
{
    match (a, b) {
        (Addr::Account(x), Addr::Account(y)) => {
            assert(x@ =~= addr_xdr(a).subrange(12, 44));
            assert(y@ =~= addr_xdr(b).subrange(12, 44));
            assert(x =~= y);
        },
        (Addr::Contract(x), Addr::Contract(y)) => {
            assert(x@ =~= addr_xdr(a).subrange(8, 40));
            assert(y@ =~= addr_xdr(b).subrange(8, 40));
            assert(x =~= y);
        },
        (Addr::Account(_), Addr::Contract(_)) => {
            assert(addr_xdr(a).len() != addr_xdr(b).len());
        },
        (Addr::Contract(_), Addr::Account(_)) => {
            assert(addr_xdr(a).len() != addr_xdr(b).len());
        },
    }
}

/// Copies the 32 bytes of `bytes` that start at `off`.
fn key_at(bytes: &Vec<u8>, off: usize) -> (k: [u8; 32])
    requires
        off + 32 <= bytes@.len(),
    ensures
        k@ == bytes@.subrange(off as int, off + 32),
{
    let mut k: [u8; 32] = [0u8; 32];
    let mut i: usize = 0;
    while i < 32
        invariant
            0 <= i <= 32,
            off + 32 <= bytes.len(),
            k@.len() == 32,
            forall|j: int| 0 <= j < i ==> k@[j] == bytes@[off + j],
        decreases 32 - i,
    {
        k[i] = bytes[off + i];
        i = i + 1;
    }
    assert(k@ =~= bytes@.subrange(off as int, off + 32));
    k
}

/// Reads an address back from its XDR encoding; `None` when `bytes` encode no
/// account or contract address.
pub fn from_xdr(bytes: &Vec<u8>) -> (r: Option<Addr>)
    ensures
        match r {
            Some(a) => addr_xdr(a) == bytes@,
            None => forall|a: Addr| addr_xdr(a) != bytes@,
        },
        forall|a: Addr| addr_xdr(a) == bytes@ ==> r == Some(a),
{
    let n = bytes.len();
    let head = n >= 8 && bytes[0] == 0 && bytes[1] == 0 && bytes[2] == 0 && bytes[3] == 18
        && bytes[4] == 0 && bytes[5] == 0 && bytes[6] == 0;
    let r = if head && n == 40 && bytes[7] == 1 {
        let k = key_at(bytes, 8);
        assert(addr_xdr(Addr::Contract(k)) =~= bytes@);
        Some(Addr::Contract(k))
    } else if head && n == 44 && bytes[7] == 0 && bytes[8] == 0 && bytes[9] == 0 && bytes[10] == 0
        && bytes[11] == 0 {
        let k = key_at(bytes, 12);
        assert(addr_xdr(Addr::Account(k)) =~= bytes@);
        Some(Addr::Account(k))
    } else {
        assert forall|a: Addr| addr_xdr(a) != bytes@ by {
            if addr_xdr(a) == bytes@ {
                match a {
                    Addr::Account(k) => {
                        assert(addr_xdr(a)[7] == 0u8 && addr_xdr(a)[11] == 0u8 && addr_xdr(a)[3] == 18u8);
                    },
                    Addr::Contract(k) => {
                        assert(addr_xdr(a)[7] == 1u8 && addr_xdr(a)[3] == 18u8);
                    },
                }
            }
        }
        None
    };
    proof {
        assert forall|a: Addr| addr_xdr(a) == bytes@ implies r == Some(a) by {
            let b = r.unwrap();
            lemma_addr_xdr_injective(a, b);
        }
    }
    r
}

} // verus!

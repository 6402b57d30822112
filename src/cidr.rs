use vstd::prelude::*;
use vstd::utf8::encode_utf8;

use vstd::arithmetic::power2::{
    lemma2_to64, lemma_pow2_pos, lemma_pow2_strictly_increases, lemma_pow2_unfold, pow2,
};

use crate::error::RvError;

verus! {

/// State of the CIDR reader after some bytes: the octets completed, the
/// number being read and its digit count, whether the prefix length is being
/// read, and whether the bytes so far are well formed.
pub struct CidrScan {
    pub octets: Seq<nat>,
    pub cur: nat,
    pub digits: nat,
    pub in_prefix: bool,
    pub ok: bool,
}

pub open spec fn scan_start() -> CidrScan {
    CidrScan { octets: Seq::empty(), cur: 0, digits: 0, in_prefix: false, ok: true }
}

pub open spec fn is_digit(c: u8) -> bool {
    48 <= c <= 57
}

/// One byte of `a.b.c.d/n`: decimal octets of at most three digits and at
/// most 255, separated by `.`, then `/` and the prefix length.
pub open spec fn scan_step(st: CidrScan, c: u8) -> CidrScan {
    if !st.ok {
        st
    } else if is_digit(c) {
        if st.digits < 3 {
            CidrScan { cur: st.cur * 10 + (c - 48) as nat, digits: st.digits + 1, ..st }
        } else {
            CidrScan { ok: false, ..st }
        }
    } else if c == 46 && !st.in_prefix && st.digits > 0 && st.cur <= 255 && st.octets.len() < 3 {
        CidrScan { octets: st.octets.push(st.cur), cur: 0, digits: 0, ..st }
    } else if c == 47 && !st.in_prefix && st.digits > 0 && st.cur <= 255 && st.octets.len() == 3 {
        CidrScan { octets: st.octets.push(st.cur), cur: 0, digits: 0, in_prefix: true, ..st }
    } else {
        CidrScan { ok: false, ..st }
    }
}

pub open spec fn scan(b: Seq<u8>) -> CidrScan
    decreases b.len(),
{
    if b.len() == 0 {
        scan_start()
    } else {
        scan_step(scan(b.drop_last()), b.last())
    }
}

/// An IPv4 block: its address as a 32-bit number and its prefix length.
pub open spec fn parse_cidr(b: Seq<u8>) -> Option<(nat, nat)> {
    let st = scan(b);
    if st.ok && st.in_prefix && st.digits > 0 && st.cur <= 32 && st.octets.len() == 4 {
        Some(
            (
                ((st.octets[0] * 256 + st.octets[1]) * 256 + st.octets[2]) * 256 + st.octets[3],
                st.cur,
            ),
        )
    } else {
        None
    }
}

/// Block `outer` holds every address of block `inner`: its prefix is no
/// longer, and the two agree on the bits of that prefix.
pub open spec fn block_contains(outer: (nat, nat), inner: (nat, nat)) -> bool {
    &&& outer.1 <= inner.1
    &&& outer.0 / pow2((32 - outer.1) as nat) == inner.0 / pow2((32 - outer.1) as nat)
}

/// A block as it is compared: one without a prefix length is a single host,
/// `/32`.
pub open spec fn normalized(b: Seq<u8>) -> Seq<u8> {
    if b.contains(47u8) {
        b
    } else {
        b + seq![47u8, 51u8, 50u8]
    }
}

pub open spec fn all_parse(v: Seq<Seq<u8>>) -> bool {
    forall|i: int| 0 <= i < v.len() ==> (#[trigger] parse_cidr(v[i])) is Some
}

/// Some block of `outer` holds `block`.
pub open spec fn covered(outer: Seq<Seq<u8>>, block: (nat, nat)) -> bool {
    exists|j: int| 0 <= j < outer.len() && #[trigger] block_contains(parse_cidr(outer[j])->Some_0, block)
}

/// Every block of `inner` lies in some block of `outer`.
pub open spec fn blocks_subset(outer: Seq<Seq<u8>>, inner: Seq<Seq<u8>>) -> bool {
    forall|i: int| 0 <= i < inner.len() ==> covered(outer, #[trigger] parse_cidr(inner[i])->Some_0)
}

pub open spec fn role_blocks(role: Seq<String>) -> Seq<Seq<u8>> {
    role.map_values(|s: String| normalized(encode_utf8(s@)))
}

pub open spec fn secret_blocks(secret: Seq<String>) -> Seq<Seq<u8>> {
    secret.map_values(|s: String| normalized(encode_utf8(s@)))
}

proof fn lemma_pow2_bound(n: nat)
    requires
        n <= 32,
    ensures
        1 <= pow2(n) <= 0x1_0000_0000,
{
    lemma_pow2_pos(n);
    lemma2_to64();
    if n < 32 {
        lemma_pow2_strictly_increases(n, 32);
    }
}

fn exec_pow2(n: u64) -> (r: u64)
    requires
        n <= 32,
    ensures
        r as nat == pow2(n as nat),
        r >= 1,
{
    let mut p: u64 = 1;
    let mut k: u64 = 0;
    proof {
        lemma2_to64();
    }
    while k < n
        invariant
            k <= n <= 32,
            p as nat == pow2(k as nat),
        decreases n - k,
    {
        proof {
            lemma_pow2_bound((k + 1) as nat);
            lemma_pow2_unfold((k + 1) as nat);
        }
        p = p * 2;
        k = k + 1;
    }
    proof {
        lemma_pow2_bound(n as nat);
    }
    p
}

/// Reads an IPv4 block `a.b.c.d/n`.
fn parse_block(b: &[u8]) -> (r: Option<(u64, u64)>)
    ensures
        r is None <==> parse_cidr(b@) is None,
        r is Some ==> r->Some_0.0 as nat == parse_cidr(b@)->Some_0.0 && r->Some_0.1 as nat == parse_cidr(
            b@,
        )->Some_0.1,
        r is Some ==> r->Some_0.1 <= 32 && r->Some_0.0 < 0x1_0000_0000,
{
    let mut octets: Vec<u64> = Vec::new();
    let mut cur: u64 = 0;
    let mut digits: u64 = 0;
    let mut in_prefix = false;
    let mut i: usize = 0;
    while i < b.len()
        invariant
            i <= b@.len(),
            ({
                let st = scan(b@.take(i as int));
                &&& st.ok
                &&& st.octets == octets@.map_values(|x: u64| x as nat)
                &&& st.cur == cur as nat
                &&& st.digits == digits as nat
                &&& st.in_prefix == in_prefix
            }),
            digits <= 3,
            cur < 1000,
            digits == 0 ==> cur == 0,
            digits == 1 ==> cur < 10,
            digits == 2 ==> cur < 100,
            forall|j: int| 0 <= j < octets@.len() ==> octets@[j] <= 255,
            octets@.len() <= 4,
            !in_prefix ==> octets@.len() <= 3,
            in_prefix ==> octets@.len() == 4,
        decreases b@.len() - i,
    {
        let c = b[i];
        proof {
            assert(b@.take(i + 1).drop_last() =~= b@.take(i as int));
            assert(b@.take(i + 1).last() == c);
        }
        if 48 <= c && c <= 57 {
            if digits < 3 {
                cur = cur * 10 + (c - 48) as u64;
                digits = digits + 1;
            } else {
                proof { lemma_scan_fails_after(b@, i as int + 1); }
                return None;
            }
        } else if c == 46 && !in_prefix && digits > 0 && cur <= 255 && octets.len() < 3 {
            octets.push(cur);
            cur = 0;
            digits = 0;
        } else if c == 47 && !in_prefix && digits > 0 && cur <= 255 && octets.len() == 3 {
            octets.push(cur);
            cur = 0;
            digits = 0;
            in_prefix = true;
        } else {
            proof { lemma_scan_fails_after(b@, i as int + 1); }
            return None;
        }
        proof {
            assert(octets@.map_values(|x: u64| x as nat) =~= scan(b@.take(i + 1)).octets);
        }
        i = i + 1;
    }
    proof {
        assert(b@.take(b@.len() as int) =~= b@);
    }
    if in_prefix && digits > 0 && cur <= 32 && octets.len() == 4 {
        let addr = ((octets[0] * 256 + octets[1]) * 256 + octets[2]) * 256 + octets[3];
        Some((addr, cur))
    } else {
        None
    }
}

/// Once the reader has failed it stays failed.
proof fn lemma_scan_fails_after(b: Seq<u8>, k: int)
    requires
        0 <= k <= b.len(),
        !scan(b.take(k)).ok,
    ensures
        !scan(b).ok,
    decreases b.len() - k,
{
    if k < b.len() {
        assert(b.take(k + 1).drop_last() =~= b.take(k));
        lemma_scan_fails_after(b, k + 1);
    } else {
        assert(b.take(k) =~= b);
    }
}

fn contains_block(outer: (u64, u64), inner: (u64, u64)) -> (r: bool)
    requires
        outer.1 <= 32,
        inner.1 <= 32,
    ensures
        r == block_contains((outer.0 as nat, outer.1 as nat), (inner.0 as nat, inner.1 as nat)),
{
    if outer.1 > inner.1 {
        return false;
    }
    let p = exec_pow2(32 - outer.1);
    outer.0 / p == inner.0 / p
}

fn normalize(b: &[u8]) -> (r: Vec<u8>)
    ensures
        r@ == normalized(b@),
{
    let mut out: Vec<u8> = Vec::new();
    let mut has_slash = false;
    let mut i: usize = 0;
    while i < b.len()
        invariant
            i <= b@.len(),
            out@ == b@.take(i as int),
            has_slash == b@.take(i as int).contains(47u8),
        decreases b@.len() - i,
    {
        let c = b[i];
        proof {
            assert(b@.take(i + 1) =~= b@.take(i as int).push(c));
            if b@.take(i as int).contains(47u8) {
                let k = choose|k: int| 0 <= k < i && #[trigger] b@.take(i as int)[k] == 47u8;
                assert(b@.take(i + 1)[k] == 47u8);
            }
            if c == 47u8 {
                assert(b@.take(i + 1)[i as int] == 47u8);
            }
            if b@.take(i + 1).contains(47u8) && c != 47u8 {
                let k = choose|k: int| 0 <= k < i + 1 && #[trigger] b@.take(i + 1)[k] == 47u8;
                assert(b@.take(i as int)[k] == 47u8);
            }
        }
        if c == 47 {
            has_slash = true;
        }
        out.push(c);
        i = i + 1;
    }
    proof {
        assert(b@.take(b@.len() as int) =~= b@);
    }
    if !has_slash {
        out.push(47);
        out.push(51);
        out.push(50);
        proof {
            assert(out@ =~= b@ + seq![47u8, 51u8, 50u8]);
        }
    }
    out
}

/// Checks that every CIDR block on a secret-id lies within some block bound on
/// its role. Either list being empty imposes nothing. A role block without a
/// prefix length, on either side, is a single host; IPv4 blocks are read.
pub fn verify_cidr_role_secret_id_subset(secret_id_cidrs: &[String], role_bound_cidr_list: &[String]) -> (r:
    Result<(), RvError>)
    ensures
        secret_id_cidrs@.len() == 0 || role_bound_cidr_list@.len() == 0 ==> r is Ok,
        secret_id_cidrs@.len() != 0 && role_bound_cidr_list@.len() != 0 ==> ({
            let outer = role_blocks(role_bound_cidr_list@);
            let inner = secret_blocks(secret_id_cidrs@);
            let parsed = all_parse(outer) && all_parse(inner);
            &&& (r == Err::<(), RvError>(RvError::InvalidCidr) <==> !parsed)
            &&& (r is Ok <==> parsed && blocks_subset(outer, inner))
            &&& (r == Err::<(), RvError>(RvError::CidrViolation) <==> parsed && !blocks_subset(outer, inner))
        }),
{
    if secret_id_cidrs.len() == 0 || role_bound_cidr_list.len() == 0 {
        return Ok(());
    }
    let ghost outer = role_blocks(role_bound_cidr_list@);
    let ghost inner = secret_blocks(secret_id_cidrs@);
    let mut roles: Vec<(u64, u64)> = Vec::new();
    let mut i: usize = 0;
    while i < role_bound_cidr_list.len()
        invariant
            i <= role_bound_cidr_list@.len(),
            secret_id_cidrs@.len() != 0 && role_bound_cidr_list@.len() != 0,
            outer == role_blocks(role_bound_cidr_list@),
            inner == secret_blocks(secret_id_cidrs@),
            roles@.len() == i,
            forall|j: int| 0 <= j < i ==> (#[trigger] parse_cidr(outer[j])) is Some,
            forall|j: int|
                0 <= j < i ==> roles@[j].0 as nat == (#[trigger] parse_cidr(outer[j]))->Some_0.0
                    && roles@[j].1 as nat == parse_cidr(outer[j])->Some_0.1 && roles@[j].1 <= 32,
        decreases role_bound_cidr_list@.len() - i,
    {
        let nb = normalize(role_bound_cidr_list[i].as_str().as_bytes());
        match parse_block(nb.as_slice()) {
            Some(b) => roles.push(b),
            None => {
                proof {
                    assert(!all_parse(outer) || parse_cidr(outer[i as int]) is Some);
                }
                return Err(RvError::InvalidCidr);
            },
        }
        i = i + 1;
    }
    let mut secrets: Vec<(u64, u64)> = Vec::new();
    let mut i: usize = 0;
    while i < secret_id_cidrs.len()
        invariant
            i <= secret_id_cidrs@.len(),
            secret_id_cidrs@.len() != 0 && role_bound_cidr_list@.len() != 0,
            outer == role_blocks(role_bound_cidr_list@),
            inner == secret_blocks(secret_id_cidrs@),
            roles@.len() == outer.len(),
            forall|j: int|
                0 <= j < outer.len() ==> roles@[j].0 as nat == (#[trigger] parse_cidr(outer[j]))->Some_0.0
                    && roles@[j].1 as nat == parse_cidr(outer[j])->Some_0.1 && roles@[j].1 <= 32,
            all_parse(outer),
            secrets@.len() == i,
            forall|j: int| 0 <= j < i ==> (#[trigger] parse_cidr(inner[j])) is Some,
            forall|j: int|
                0 <= j < i ==> secrets@[j].0 as nat == (#[trigger] parse_cidr(inner[j]))->Some_0.0
                    && secrets@[j].1 as nat == parse_cidr(inner[j])->Some_0.1 && secrets@[j].1 <= 32,
        decreases secret_id_cidrs@.len() - i,
    {
        let nb = normalize(secret_id_cidrs[i].as_str().as_bytes());
        match parse_block(nb.as_slice()) {
            Some(b) => secrets.push(b),
            None => {
                proof {
                    assert(parse_cidr(inner[i as int]) is None);
                }
                return Err(RvError::InvalidCidr);
            },
        }
        i = i + 1;
    }
    let mut i: usize = 0;
    while i < secrets.len()
        invariant
            i <= secrets@.len() == inner.len(),
            secret_id_cidrs@.len() != 0 && role_bound_cidr_list@.len() != 0,
            outer == role_blocks(role_bound_cidr_list@),
            inner == secret_blocks(secret_id_cidrs@),
            roles@.len() == outer.len(),
            all_parse(outer),
            all_parse(inner),
            forall|j: int|
                0 <= j < outer.len() ==> roles@[j].0 as nat == (#[trigger] parse_cidr(outer[j]))->Some_0.0
                    && roles@[j].1 as nat == parse_cidr(outer[j])->Some_0.1 && roles@[j].1 <= 32,
            forall|j: int|
                0 <= j < inner.len() ==> secrets@[j].0 as nat == (#[trigger] parse_cidr(inner[j]))->Some_0.0
                    && secrets@[j].1 as nat == parse_cidr(inner[j])->Some_0.1 && secrets@[j].1 <= 32,
            forall|k: int| 0 <= k < i ==> covered(outer, #[trigger] parse_cidr(inner[k])->Some_0),
        decreases secrets@.len() - i,
    {
        let mut found = false;
        let mut j: usize = 0;
        while j < roles.len() && !found
            invariant
                j <= roles@.len() == outer.len(),
                i < inner.len() == secrets@.len(),
                all_parse(outer),
                forall|m: int|
                    0 <= m < outer.len() ==> roles@[m].0 as nat == (#[trigger] parse_cidr(outer[m]))->Some_0.0
                        && roles@[m].1 as nat == parse_cidr(outer[m])->Some_0.1 && roles@[m].1 <= 32,
                secrets@[i as int].0 as nat == parse_cidr(inner[i as int])->Some_0.0,
                secrets@[i as int].1 as nat == parse_cidr(inner[i as int])->Some_0.1,
                secrets@[i as int].1 <= 32,
                found ==> covered(outer, parse_cidr(inner[i as int])->Some_0),
                !found ==> forall|m: int|
                    0 <= m < j ==> !#[trigger] block_contains(
                        parse_cidr(outer[m])->Some_0,
                        parse_cidr(inner[i as int])->Some_0,
                    ),
            decreases roles@.len() - j + (if found { 0int } else { 1int }),
        {
            proof {
                let m = j as int;
                let _ = parse_cidr(outer[m]);
                assert(parse_cidr(outer[m])->Some_0 == (roles@[m].0 as nat, roles@[m].1 as nat));
                assert(parse_cidr(inner[i as int])->Some_0 == (secrets@[i as int].0 as nat, secrets@[
                    i as int
                ].1 as nat));
            }
            let hit = contains_block(roles[j], secrets[i]);
            if hit {
                found = true;
            } else {
                j = j + 1;
            }
        }
        if !found {
            proof {
                assert(!covered(outer, parse_cidr(inner[i as int])->Some_0));
            }
            return Err(RvError::CidrViolation);
        }
        i = i + 1;
    }
    Ok(())
}

/// A list of well-formed blocks or addresses is a subset of itself, and an
/// empty list on either side imposes nothing.
pub proof fn lemma_cidr_subset_reflexive(cidrs: Seq<String>)
    requires
        all_parse(secret_blocks(cidrs)),
    ensures
        all_parse(role_blocks(cidrs)),
        role_blocks(cidrs) == secret_blocks(cidrs),
        blocks_subset(role_blocks(cidrs), secret_blocks(cidrs)),
{
    let inner = secret_blocks(cidrs);
    assert(role_blocks(cidrs) =~= secret_blocks(cidrs));
    assert forall|i: int| 0 <= i < inner.len() implies covered(
        inner,
        #[trigger] parse_cidr(inner[i])->Some_0,
    ) by {
        assert(block_contains(parse_cidr(inner[i])->Some_0, parse_cidr(inner[i])->Some_0));
    }
}

} // verus!

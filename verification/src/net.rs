//! Local network helpers: which interface addresses the LAN server
//! advertises, and in what order.
use vstd::prelude::*;

use crate::text::{
    chars_of, has_prefix_at, lowercase, nat_decimal, push_char, push_u64, to_lowercase,
};

verus! {

broadcast use vstd::string::group_string_axioms;

/// An interface address: IPv4 with its four octets, or IPv6 with its eight
/// segments.
pub enum IfAddr {
    V4(u8, u8, u8, u8),
    V6([u16; 8]),
}

/// IPv4 only, and neither loopback (`127.0.0.0/8`), link-local
/// (`169.254.0.0/16`) nor unspecified (`0.0.0.0`).
pub open spec fn usable(a: IfAddr) -> bool {
    match a {
        IfAddr::V4(x, y, z, w) => !(x == 127) && !(x == 169 && y == 254) && !(x == 0 && y == 0 && z
            == 0 && w == 0),
        IfAddr::V6(_) => false,
    }
}

/// Dotted-decimal text of an IPv4 address (what `Display` prints).
pub open spec fn v4_text(x: u8, y: u8, z: u8, w: u8) -> Seq<char> {
    nat_decimal(x as nat) + seq!['.'] + nat_decimal(y as nat) + seq!['.'] + nat_decimal(z as nat)
        + seq!['.'] + nat_decimal(w as nat)
}

/// The text of an address (only used for IPv4 ones).
pub open spec fn addr_text(a: IfAddr) -> Seq<char> {
    match a {
        IfAddr::V4(x, y, z, w) => v4_text(x, y, z, w),
        IfAddr::V6(_) => Seq::empty(),
    }
}

/// `p` is a prefix of `s`.
pub open spec fn starts_with_seq(s: Seq<char>, p: Seq<char>) -> bool {
    p.len() <= s.len() && s.take(p.len() as int) == p
}

/// Virtual/software adapters that are never the machine's LAN address:
/// docker bridges, veth pairs, VPNs, VM networking, ... (matched as
/// prefixes of the lowercased interface name).
pub open spec fn is_virtual_name(name: Seq<char>) -> bool {
    let l = lowercase(name);
    ||| starts_with_seq(l, seq!['d', 'o', 'c', 'k', 'e', 'r'])
    ||| starts_with_seq(l, seq!['b', 'r', '-'])
    ||| starts_with_seq(l, seq!['v', 'e', 't', 'h'])
    ||| starts_with_seq(l, seq!['v', 'i', 'r', 'b', 'r'])
    ||| starts_with_seq(l, seq!['v', 'm', 'n', 'e', 't'])
    ||| starts_with_seq(l, seq!['v', 'b', 'o', 'x'])
    ||| starts_with_seq(l, seq!['t', 'u', 'n'])
    ||| starts_with_seq(l, seq!['t', 'a', 'p'])
    ||| starts_with_seq(l, seq!['u', 't', 'u', 'n'])
    ||| starts_with_seq(l, seq!['w', 'g'])
    ||| starts_with_seq(l, seq!['p', 'p', 'p'])
    ||| starts_with_seq(l, seq!['z', 't'])
    ||| starts_with_seq(l, seq!['t', 'a', 'i', 'l', 's', 'c', 'a', 'l', 'e'])
    ||| starts_with_seq(l, seq!['v', 'p', 'n'])
}

/// The texts of the usable addresses of the interfaces whose virtuality is
/// `virt`, in order.
pub open spec fn addrs_of(ifs: Seq<(String, IfAddr)>, virt: bool) -> Seq<Seq<char>>
    decreases ifs.len(),
{
    if ifs.len() == 0 {
        Seq::empty()
    } else {
        let rest = addrs_of(ifs.drop_last(), virt);
        let (name, a) = ifs.last();
        if usable(a) && is_virtual_name(name@) == virt {
            rest.push(addr_text(a))
        } else {
            rest
        }
    }
}

/// Lexicographic order of character sequences (the order of `String`).
pub open spec fn seq_lt(a: Seq<char>, b: Seq<char>) -> bool
    decreases a.len(),
{
    if a.len() == 0 {
        b.len() > 0
    } else if b.len() == 0 {
        false
    } else if a[0] != b[0] {
        a[0] < b[0]
    } else {
        seq_lt(a.drop_first(), b.drop_first())
    }
}

/// No text is below itself.
pub proof fn lemma_lt_irreflexive(a: Seq<char>)
    ensures
        !seq_lt(a, a),
    decreases a.len(),
{
    if a.len() > 0 {
        lemma_lt_irreflexive(a.drop_first());
    }
}

/// Of two different texts, one is below the other.
pub proof fn lemma_lt_total(a: Seq<char>, b: Seq<char>)
    ensures
        a == b || seq_lt(a, b) || seq_lt(b, a),
        !(seq_lt(a, b) && seq_lt(b, a)),
    decreases a.len(),
{
    if a.len() > 0 && b.len() > 0 && a[0] == b[0] {
        lemma_lt_total(a.drop_first(), b.drop_first());
        if a.drop_first() == b.drop_first() {
            assert(a =~= seq![a[0]] + a.drop_first());
            assert(b =~= seq![b[0]] + b.drop_first());
        }
    } else if a.len() == 0 && b.len() == 0 {
        assert(a =~= b);
    }
}

/// The order of texts is transitive.
pub proof fn lemma_lt_trans(a: Seq<char>, b: Seq<char>, c: Seq<char>)
    requires
        seq_lt(a, b),
        seq_lt(b, c),
    ensures
        seq_lt(a, c),
    decreases a.len(),
{
    if a.len() > 0 && b.len() > 0 && c.len() > 0 && a[0] == b[0] && b[0] == c[0] {
        lemma_lt_trans(a.drop_first(), b.drop_first(), c.drop_first());
    }
}

/// Strictly increasing, hence without duplicates.
pub open spec fn strictly_sorted(s: Seq<Seq<char>>) -> bool {
    forall|i: int, j: int| 0 <= i < j < s.len() ==> seq_lt(#[trigger] s[i], #[trigger] s[j])
}

/// `s` is the sorted, de-duplicated list of the elements of `of`.
pub open spec fn sorted_set_of(s: Seq<Seq<char>>, of: Seq<Seq<char>>) -> bool {
    &&& strictly_sorted(s)
    &&& forall|x: Seq<char>| s.contains(x) <==> of.contains(x)
}

/// The texts of a list of strings.
pub open spec fn texts(v: Seq<String>) -> Seq<Seq<char>> {
    v.map_values(|s: String| s@)
}

/// `seq_lt` on strings.
fn str_lt(a: &Vec<char>, b: &Vec<char>) -> (r: bool)
    ensures
        r == seq_lt(a@, b@),
{
    let mut i: usize = 0;
    assert(a@.skip(0) =~= a@);
    assert(b@.skip(0) =~= b@);
    while i < a.len() && i < b.len() && a[i] == b[i]
        invariant
            0 <= i <= a@.len(),
            i <= b@.len(),
            seq_lt(a@, b@) == seq_lt(a@.skip(i as int), b@.skip(i as int)),
        decreases a.len() - i,
    {
        assert(a@.skip(i as int).drop_first() =~= a@.skip(i + 1));
        assert(b@.skip(i as int).drop_first() =~= b@.skip(i + 1));
        i = i + 1;
    }
    if i == a.len() {
        i < b.len()
    } else if i == b.len() {
        false
    } else {
        assert(a@.skip(i as int)[0] == a@[i as int]);
        assert(b@.skip(i as int)[0] == b@[i as int]);
        a[i] < b[i]
    }
}

/// What a pushed sequence contains.
pub proof fn lemma_push_contains(s: Seq<Seq<char>>, x: Seq<char>)
    ensures
        forall|y: Seq<char>| #[trigger] s.push(x).contains(y) <==> (s.contains(y) || y == x),
{
    assert forall|y: Seq<char>| #[trigger] s.push(x).contains(y) <==> (s.contains(y) || y == x) by {
        if s.contains(y) {
            let q = choose|q: int| 0 <= q < s.len() && s[q] == y;
            assert(s.push(x)[q] == y);
        }
        if y == x {
            assert(s.push(x)[s.len() as int] == y);
        }
        if s.push(x).contains(y) {
            let q = choose|q: int| 0 <= q < s.push(x).len() && s.push(x)[q] == y;
            if q < s.len() {
                assert(s[q] == y);
            }
        }
    }
}

/// Inserts `x` into the strictly sorted list `v`, unless already there.
fn insert_sorted(v: &mut Vec<String>, x: String)
    requires
        strictly_sorted(texts(old(v)@)),
    ensures
        strictly_sorted(texts(final(v)@)),
        forall|y: Seq<char>| texts(final(v)@).contains(y) <==> (texts(old(v)@).contains(y) || y == x@),
{
    let ghost old_t = texts(v@);
    let xc = chars_of(x.as_str());
    let mut k: usize = 0;
    while k < v.len()
        invariant
            0 <= k <= v@.len(),
            texts(v@) == old_t,
            xc@ == x@,
            strictly_sorted(old_t),
            forall|i: int| 0 <= i < k ==> seq_lt(#[trigger] old_t[i], x@),
        ensures
            0 <= k <= v@.len(),
            texts(v@) == old_t,
            forall|i: int| 0 <= i < k ==> seq_lt(#[trigger] old_t[i], x@),
            k < v@.len() ==> !seq_lt(old_t[k as int], x@),
        decreases v.len() - k,
    {
        let vc = chars_of(v[k].as_str());
        if !str_lt(&vc, &xc) {
            break ;
        }
        k = k + 1;
    }
    if k < v.len() {
        let vc = chars_of(v[k].as_str());
        proof {
            lemma_lt_total(old_t[k as int], x@);
        }
        if crate::text::chars_eq(&vc, &xc) {
            assert(old_t[k as int] == x@);
            assert forall|y: Seq<char>| old_t.contains(y) <==> (old_t.contains(y) || y == x@) by {
                if y == x@ {
                    assert(old_t[k as int] == y);
                }
            }
            return ;
        }
        assert(seq_lt(x@, old_t[k as int]));
    }
    v.insert(k, x);
    let ghost nt = texts(v@);
    assert(nt =~= old_t.insert(k as int, xc@));
    assert forall|i: int, j: int| 0 <= i < j < nt.len() implies seq_lt(#[trigger] nt[i], #[trigger] nt[j]) by {
        if j < k {
        } else if j == k {
        } else if i < k {
            assert(seq_lt(nt[i], x@));
            assert(nt[j] == old_t[j - 1]);
            if j - 1 > k {
                assert(seq_lt(old_t[k as int], old_t[j - 1]));
                lemma_lt_trans(x@, old_t[k as int], old_t[j - 1]);
            }
            lemma_lt_trans(nt[i], x@, nt[j]);
        } else if i == k {
            assert(nt[j] == old_t[j - 1]);
            if j - 1 > k {
                assert(seq_lt(old_t[k as int], old_t[j - 1]));
                lemma_lt_trans(x@, old_t[k as int], old_t[j - 1]);
            }
        } else {
            assert(nt[i] == old_t[i - 1]);
            assert(nt[j] == old_t[j - 1]);
        }
    }
    assert forall|y: Seq<char>| nt.contains(y) <==> (old_t.contains(y) || y == x@) by {
        if nt.contains(y) {
            let i = choose|i: int| 0 <= i < nt.len() && nt[i] == y;
            if i < k {
                assert(old_t[i] == y);
            } else if i > k {
                assert(old_t[i - 1] == y);
            }
        }
        if old_t.contains(y) {
            let i = choose|i: int| 0 <= i < old_t.len() && old_t[i] == y;
            if i < k {
                assert(nt[i] == y);
            } else {
                assert(nt[i + 1] == y);
            }
        }
        if y == x@ {
            assert(nt[k as int] == y);
        }
    }
}

/// The interface name starts with a virtual-adapter prefix, lowercased.
fn is_virtual(name: &str) -> (r: bool)
    ensures
        r == is_virtual_name(name@),
{
    let l = to_lowercase(name);
    let v = chars_of(l.as_str());
    has_prefix_at(&v, 0, &['d', 'o', 'c', 'k', 'e', 'r']) || has_prefix_at(&v, 0, &['b', 'r', '-'])
        || has_prefix_at(&v, 0, &['v', 'e', 't', 'h']) || has_prefix_at(
        &v,
        0,
        &['v', 'i', 'r', 'b', 'r'],
    ) || has_prefix_at(&v, 0, &['v', 'm', 'n', 'e', 't']) || has_prefix_at(
        &v,
        0,
        &['v', 'b', 'o', 'x'],
    ) || has_prefix_at(&v, 0, &['t', 'u', 'n']) || has_prefix_at(&v, 0, &['t', 'a', 'p'])
        || has_prefix_at(&v, 0, &['u', 't', 'u', 'n']) || has_prefix_at(&v, 0, &['w', 'g'])
        || has_prefix_at(&v, 0, &['p', 'p', 'p']) || has_prefix_at(&v, 0, &['z', 't'])
        || has_prefix_at(&v, 0, &['t', 'a', 'i', 'l', 's', 'c', 'a', 'l', 'e']) || has_prefix_at(
        &v,
        0,
        &['v', 'p', 'n'],
    )
}

/// Dotted-decimal text of an IPv4 address.
fn v4_string(x: u8, y: u8, z: u8, w: u8) -> (r: String)
    ensures
        r@ == v4_text(x, y, z, w),
{
    let mut s = String::new();
    push_u64(&mut s, x as u64);
    push_char(&mut s, '.');
    push_u64(&mut s, y as u64);
    push_char(&mut s, '.');
    push_u64(&mut s, z as u64);
    push_char(&mut s, '.');
    push_u64(&mut s, w as u64);
    s
}

/// All usable local IPv4 addresses, as strings: real interfaces
/// (wlan/eth/en/...) first, sorted and de-duplicated, then any remaining
/// (VPN, VM, ...) address, sorted and de-duplicated, so the first entry is
/// almost always the one reachable on the user's Wi-Fi.
pub fn relevant_ips(interfaces: Vec<(String, IfAddr)>) -> (r: Vec<String>)
    ensures
        exists|k: int|
            0 <= k <= r@.len() && sorted_set_of(texts(r@).take(k), addrs_of(interfaces@, false))
                && sorted_set_of(texts(r@).skip(k), addrs_of(interfaces@, true)),
{
    let mut physical: Vec<String> = Vec::new();
    let mut virtual_ips: Vec<String> = Vec::new();
    let mut i: usize = 0;
    while i < interfaces.len()
        invariant
            0 <= i <= interfaces@.len(),
            sorted_set_of(texts(physical@), addrs_of(interfaces@.take(i as int), false)),
            sorted_set_of(texts(virtual_ips@), addrs_of(interfaces@.take(i as int), true)),
        decreases interfaces.len() - i,
    {
        let ghost pre = interfaces@.take(i as int);
        assert(interfaces@.take(i + 1).drop_last() =~= pre);
        assert(interfaces@.take(i + 1).last() == interfaces@[i as int]);
        let (name, addr) = (&interfaces[i].0, &interfaces[i].1);
        match addr {
            IfAddr::V4(x, y, z, w) => {
                if !(*x == 127) && !(*x == 169 && *y == 254) && !(*x == 0 && *y == 0 && *z == 0 && *w
                    == 0) {
                    let text = v4_string(*x, *y, *z, *w);
                    if is_virtual(name.as_str()) {
                        insert_sorted(&mut virtual_ips, text);
                    } else {
                        insert_sorted(&mut physical, text);
                    }
                }
            },
            IfAddr::V6(_) => {},
        }
        proof {
            let now = interfaces@.take(i + 1);
            let t = addr_text(interfaces@[i as int].1);
            lemma_push_contains(addrs_of(pre, false), t);
            lemma_push_contains(addrs_of(pre, true), t);
            assert(addrs_of(now, false) == if usable(interfaces@[i as int].1) && !is_virtual_name(
                interfaces@[i as int].0@,
            ) {
                addrs_of(pre, false).push(t)
            } else {
                addrs_of(pre, false)
            });
            assert(addrs_of(now, true) == if usable(interfaces@[i as int].1) && is_virtual_name(
                interfaces@[i as int].0@,
            ) {
                addrs_of(pre, true).push(t)
            } else {
                addrs_of(pre, true)
            });
        }
        i = i + 1;
    }
    assert(interfaces@.take(interfaces@.len() as int) =~= interfaces@);
    let ghost k = physical@.len() as int;
    let ghost pt = texts(physical@);
    let ghost vt = texts(virtual_ips@);
    physical.append(&mut virtual_ips);
    assert(texts(physical@).take(k) =~= pt);
    assert(texts(physical@).skip(k) =~= vt);
    physical
}

/// The name prefixes of virtual adapters, matched against the lowercased
/// interface name: docker bridges, veth pairs, VPNs, VM networking, ...
pub open spec fn virtual_adapter_prefixes() -> Seq<Seq<char>> {
    seq![
        seq!['d', 'o', 'c', 'k', 'e', 'r'],
        seq!['b', 'r', '-'],
        seq!['v', 'e', 't', 'h'],
        seq!['v', 'i', 'r', 'b', 'r'],
        seq!['v', 'm', 'n', 'e', 't'],
        seq!['v', 'b', 'o', 'x'],
        seq!['t', 'u', 'n'],
        seq!['t', 'a', 'p'],
        seq!['u', 't', 'u', 'n'],
        seq!['w', 'g'],
        seq!['p', 'p', 'p'],
        seq!['z', 't'],
        seq!['t', 'a', 'i', 'l', 's', 'c', 'a', 'l', 'e'],
        seq!['v', 'p', 'n'],
    ]
}

proof fn lemma_addrs_of_contains(ifs: Seq<(String, IfAddr)>, i: int, virt: bool)
    requires
        0 <= i < ifs.len(),
        usable(ifs[i].1),
        is_virtual_name(ifs[i].0@) == virt,
    ensures
        addrs_of(ifs, virt).contains(addr_text(ifs[i].1)),
    decreases ifs.len(),
{
    let t = addr_text(ifs[i].1);
    lemma_push_contains(addrs_of(ifs.drop_last(), virt), addr_text(ifs.last().1));
    if i == ifs.len() - 1 {
        assert(ifs.last() == ifs[i]);
    } else {
        assert(ifs.drop_last()[i] == ifs[i]);
        lemma_addrs_of_contains(ifs.drop_last(), i, virt);
    }
}

/// An interface counts as virtual exactly when its lowercased name starts
/// with one of [`virtual_adapter_prefixes`]. Its usable address is then
/// among the virtual addresses, which [`relevant_ips`] lists after every
/// physical one; any other interface's usable address is among the
/// physical ones, listed first.
pub proof fn lemma_virtual_interfaces_listed_last(ifs: Seq<(String, IfAddr)>, i: int)
    requires
        0 <= i < ifs.len(),
        usable(ifs[i].1),
    ensures
        ({
            let l = lowercase(ifs[i].0@);
            let virt = exists|k: int|
                0 <= k < virtual_adapter_prefixes().len() && starts_with_seq(
                    l,
                    #[trigger] virtual_adapter_prefixes()[k],
                );
            &&& is_virtual_name(ifs[i].0@) == virt
            &&& addrs_of(ifs, virt).contains(addr_text(ifs[i].1))
        }),
{
    let ps = virtual_adapter_prefixes();
    assert(ps[0] == seq!['d', 'o', 'c', 'k', 'e', 'r']);
    assert(ps[1] == seq!['b', 'r', '-']);
    assert(ps[2] == seq!['v', 'e', 't', 'h']);
    assert(ps[3] == seq!['v', 'i', 'r', 'b', 'r']);
    assert(ps[4] == seq!['v', 'm', 'n', 'e', 't']);
    assert(ps[5] == seq!['v', 'b', 'o', 'x']);
    assert(ps[6] == seq!['t', 'u', 'n']);
    assert(ps[7] == seq!['t', 'a', 'p']);
    assert(ps[8] == seq!['u', 't', 'u', 'n']);
    assert(ps[9] == seq!['w', 'g']);
    assert(ps[10] == seq!['p', 'p', 'p']);
    assert(ps[11] == seq!['z', 't']);
    assert(ps[12] == seq!['t', 'a', 'i', 'l', 's', 'c', 'a', 'l', 'e']);
    assert(ps[13] == seq!['v', 'p', 'n']);
    lemma_addrs_of_contains(ifs, i, is_virtual_name(ifs[i].0@));
}

} // verus!

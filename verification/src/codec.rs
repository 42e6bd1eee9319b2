use vstd::prelude::*;

use base64::Engine;
use vstd::arithmetic::div_mod::lemma_fundamental_div_mod;

use crate::models::{Configuration, Resources, Service, UserProvidedConfig};
use crate::models::{ConfigurationV, UserProvidedConfigV};
use crate::registry::{PairSeq, ServiceRecord, ServiceRecordV, map_of};

verus! {

// ---------------------------------------------------------------------------
// Little-endian bytes
// ---------------------------------------------------------------------------
/// 256 to the power `k`.
pub open spec fn pow256(k: nat) -> int
    decreases k,
{
    if k == 0 {
        1
    } else {
        256 * pow256((k - 1) as nat)
    }
}

proof fn lemma_pow256_vals()
    ensures
        pow256(2) == 0x10000,
        pow256(4) == 0x1_0000_0000,
        pow256(7) == 0x100_0000_0000_0000,
        pow256(8) == 0x1_0000_0000_0000_0000,
{
    reveal_with_fuel(pow256, 9);
}

proof fn lemma_pow256_le(a: nat, b: nat)
    requires
        a <= b,
    ensures
        1 <= pow256(a) <= pow256(b),
    decreases b,
{
    if a == b {
        if a > 0 {
            lemma_pow256_le((a - 1) as nat, (a - 1) as nat);
        }
    } else {
        lemma_pow256_le(a, (b - 1) as nat);
    }
}

/// The `k` little-endian bytes of `x`.
pub open spec fn le_bytes(x: int, k: nat) -> Seq<u8>
    decreases k,
{
    if k == 0 {
        Seq::empty()
    } else {
        seq![(x % 256) as u8] + le_bytes(x / 256, (k - 1) as nat)
    }
}

/// The value a little-endian byte sequence denotes.
pub open spec fn le_val(b: Seq<u8>) -> int
    decreases b.len(),
{
    if b.len() == 0 {
        0
    } else {
        b[0] + 256 * le_val(b.drop_first())
    }
}

proof fn lemma_le_bytes_len(x: int, k: nat)
    ensures
        le_bytes(x, k).len() == k,
    decreases k,
{
    if k > 0 {
        lemma_le_bytes_len(x / 256, (k - 1) as nat);
    }
}

proof fn lemma_le_roundtrip(x: int, k: nat)
    requires
        0 <= x < pow256(k),
    ensures
        le_bytes(x, k).len() == k,
        le_val(le_bytes(x, k)) == x,
    decreases k,
{
    lemma_le_bytes_len(x, k);
    if k > 0 {
        lemma_fundamental_div_mod(x, 256);
        assert(x / 256 < pow256((k - 1) as nat)) by {
            if x / 256 >= pow256((k - 1) as nat) {
                assert(256 * (x / 256) >= 256 * pow256((k - 1) as nat));
            }
        }
        lemma_le_roundtrip(x / 256, (k - 1) as nat);
        assert(le_bytes(x, k).drop_first() =~= le_bytes(x / 256, (k - 1) as nat));
    }
}

/// Reads `k` little-endian bytes off the front.
pub open spec fn dec_le(s: Seq<u8>, k: nat) -> Option<(int, Seq<u8>)> {
    if s.len() >= k {
        Some((le_val(s.take(k as int)), s.skip(k as int)))
    } else {
        None
    }
}

proof fn lemma_dec_le(x: int, k: nat, rest: Seq<u8>)
    requires
        0 <= x < pow256(k),
    ensures
        dec_le(le_bytes(x, k) + rest, k) == Some((x, rest)),
{
    lemma_le_roundtrip(x, k);
    assert((le_bytes(x, k) + rest).take(k as int) =~= le_bytes(x, k));
    assert((le_bytes(x, k) + rest).skip(k as int) =~= rest);
}

// ---------------------------------------------------------------------------
// Scalars
// ---------------------------------------------------------------------------
/// The field encodings: booleans and option tags are one byte, `u16` fields
/// two little-endian bytes, characters four, lengths eight; a string is its
/// length followed by its characters; an absent option is the tag byte `0`,
/// a present one the tag byte `1` followed by the payload.
pub open spec fn enc_u16(v: u16) -> Seq<u8> {
    le_bytes(v as int, 2)
}

pub open spec fn dec_u16(s: Seq<u8>) -> Option<(u16, Seq<u8>)> {
    match dec_le(s, 2) {
        Some((x, r)) => Some((x as u16, r)),
        None => None,
    }
}

proof fn lemma_dec_enc_u16(v: u16, rest: Seq<u8>)
    ensures
        dec_u16(enc_u16(v) + rest) == Some((v, rest)),
{
    lemma_pow256_vals();
    lemma_dec_le(v as int, 2, rest);
}

pub open spec fn enc_bool(v: bool) -> Seq<u8> {
    seq![if v { 1u8 } else { 0u8 }]
}

pub open spec fn dec_bool(s: Seq<u8>) -> Option<(bool, Seq<u8>)> {
    if s.len() >= 1 && (s[0] == 0u8 || s[0] == 1u8) {
        Some((s[0] == 1u8, s.skip(1)))
    } else {
        None
    }
}

proof fn lemma_dec_enc_bool(v: bool, rest: Seq<u8>)
    ensures
        dec_bool(enc_bool(v) + rest) == Some((v, rest)),
{
    assert((enc_bool(v) + rest).skip(1) =~= rest);
}

/// A Unicode scalar value: what a character may hold.
pub open spec fn valid_scalar(x: int) -> bool {
    (0 <= x && x < 0xD800) || (0xE000 <= x && x <= 0x10FFFF)
}

pub open spec fn enc_char(c: char) -> Seq<u8> {
    le_bytes(c as int, 4)
}

pub open spec fn dec_char(s: Seq<u8>) -> Option<(char, Seq<u8>)> {
    match dec_le(s, 4) {
        Some((x, r)) => if valid_scalar(x) {
            Some(((x as u32) as char, r))
        } else {
            None
        },
        None => None,
    }
}

proof fn lemma_dec_enc_char(c: char, rest: Seq<u8>)
    ensures
        dec_char(enc_char(c) + rest) == Some((c, rest)),
{
    lemma_pow256_vals();
    lemma_dec_le(c as int, 4, rest);
    assert((c as int) as u32 == c as u32);
    vstd::utf8::char_u32_cast(c, c as u32);
}

// ---------------------------------------------------------------------------
// Strings and options
// ---------------------------------------------------------------------------
pub open spec fn enc_chars(t: Seq<char>) -> Seq<u8>
    decreases t.len(),
{
    if t.len() == 0 {
        Seq::empty()
    } else {
        enc_char(t[0]) + enc_chars(t.drop_first())
    }
}

pub open spec fn dec_chars(s: Seq<u8>, cnt: nat) -> Option<(Seq<char>, Seq<u8>)>
    decreases cnt,
{
    if cnt == 0 {
        Some((Seq::empty(), s))
    } else {
        match dec_char(s) {
            None => None,
            Some((c, s1)) => match dec_chars(s1, (cnt - 1) as nat) {
                None => None,
                Some((t, s2)) => Some((seq![c] + t, s2)),
            },
        }
    }
}

/// A string short enough for its length to travel as eight bytes; every
/// string of the running program is.
pub open spec fn str_ok(t: Seq<char>) -> bool {
    t.len() < pow256(8)
}

#[verifier::opaque]
pub open spec fn enc_str(t: Seq<char>) -> Seq<u8> {
    le_bytes(t.len() as int, 8) + enc_chars(t)
}

pub open spec fn dec_str(s: Seq<u8>) -> Option<(Seq<char>, Seq<u8>)> {
    match dec_le(s, 8) {
        None => None,
        Some((n, s1)) => dec_chars(s1, n as nat),
    }
}

proof fn lemma_dec_enc_chars(t: Seq<char>, rest: Seq<u8>)
    ensures
        dec_chars(enc_chars(t) + rest, t.len()) == Some((t, rest)),
    decreases t.len(),
{
    if t.len() == 0 {
        assert(enc_chars(t) + rest =~= rest);
    } else {
        assert(enc_chars(t) + rest =~= enc_char(t[0]) + (enc_chars(t.drop_first()) + rest));
        lemma_dec_enc_char(t[0], enc_chars(t.drop_first()) + rest);
        lemma_dec_enc_chars(t.drop_first(), rest);
        assert(seq![t[0]] + t.drop_first() =~= t);
    }
}

proof fn lemma_dec_enc_str(t: Seq<char>, rest: Seq<u8>)
    requires
        str_ok(t),
    ensures
        dec_str(enc_str(t) + rest) == Some((t, rest)),
{
    reveal(enc_str);
    assert(enc_str(t) + rest =~= le_bytes(t.len() as int, 8) + (enc_chars(t) + rest));
    lemma_dec_le(t.len() as int, 8, enc_chars(t) + rest);
    lemma_dec_enc_chars(t, rest);
}

#[verifier::opaque]
pub open spec fn enc_opt_str(o: Option<Seq<char>>) -> Seq<u8> {
    match o {
        None => seq![0u8],
        Some(t) => seq![1u8] + enc_str(t),
    }
}

pub open spec fn dec_opt_str(s: Seq<u8>) -> Option<(Option<Seq<char>>, Seq<u8>)> {
    if s.len() < 1 {
        None
    } else if s[0] == 0u8 {
        Some((None, s.skip(1)))
    } else if s[0] == 1u8 {
        match dec_str(s.skip(1)) {
            Some((t, r)) => Some((Some(t), r)),
            None => None,
        }
    } else {
        None
    }
}

pub open spec fn opt_str_ok(o: Option<Seq<char>>) -> bool {
    match o {
        Some(t) => str_ok(t),
        None => true,
    }
}

proof fn lemma_dec_enc_opt_str(o: Option<Seq<char>>, rest: Seq<u8>)
    requires
        opt_str_ok(o),
    ensures
        dec_opt_str(enc_opt_str(o) + rest) == Some((o, rest)),
{
    reveal(enc_opt_str);
    match o {
        None => {
            assert((enc_opt_str(o) + rest).skip(1) =~= rest);
        },
        Some(t) => {
            assert((enc_opt_str(o) + rest).skip(1) =~= enc_str(t) + rest);
            lemma_dec_enc_str(t, rest);
        },
    }
}

#[verifier::opaque]
pub open spec fn enc_opt_u16(o: Option<u16>) -> Seq<u8> {
    match o {
        None => seq![0u8],
        Some(v) => seq![1u8] + enc_u16(v),
    }
}

pub open spec fn dec_opt_u16(s: Seq<u8>) -> Option<(Option<u16>, Seq<u8>)> {
    if s.len() < 1 {
        None
    } else if s[0] == 0u8 {
        Some((None, s.skip(1)))
    } else if s[0] == 1u8 {
        match dec_u16(s.skip(1)) {
            Some((v, r)) => Some((Some(v), r)),
            None => None,
        }
    } else {
        None
    }
}

proof fn lemma_dec_enc_opt_u16(o: Option<u16>, rest: Seq<u8>)
    ensures
        dec_opt_u16(enc_opt_u16(o) + rest) == Some((o, rest)),
{
    reveal(enc_opt_u16);
    match o {
        None => {
            assert((enc_opt_u16(o) + rest).skip(1) =~= rest);
        },
        Some(v) => {
            assert((enc_opt_u16(o) + rest).skip(1) =~= enc_u16(v) + rest);
            lemma_dec_enc_u16(v, rest);
        },
    }
}

// ---------------------------------------------------------------------------
// Records
// ---------------------------------------------------------------------------
#[verifier::opaque]
pub open spec fn enc_upc(u: UserProvidedConfigV) -> Seq<u8> {
    enc_opt_u16(u.port) + enc_opt_u16(u.replicas) + enc_opt_str(u.cloud) + enc_opt_str(u.workdir)
        + enc_opt_str(u.data) + enc_opt_u16(u.disk_size) + enc_opt_str(u.cpu) + enc_opt_str(
        u.memory,
    ) + enc_opt_str(u.accelerators) + enc_opt_str(u.setup) + enc_opt_str(u.run)
}

#[verifier::opaque]
pub open spec fn dec_upc(s: Seq<u8>) -> Option<(UserProvidedConfigV, Seq<u8>)> {
    match dec_opt_u16(s) {
        None => None,
        Some((port, s)) => match dec_opt_u16(s) {
            None => None,
            Some((replicas, s)) => match dec_opt_str(s) {
                None => None,
                Some((cloud, s)) => match dec_opt_str(s) {
                    None => None,
                    Some((workdir, s)) => match dec_opt_str(s) {
                        None => None,
                        Some((data, s)) => match dec_opt_u16(s) {
                            None => None,
                            Some((disk_size, s)) => match dec_opt_str(s) {
                                None => None,
                                Some((cpu, s)) => match dec_opt_str(s) {
                                    None => None,
                                    Some((memory, s)) => match dec_opt_str(s) {
                                        None => None,
                                        Some((accelerators, s)) => match dec_opt_str(s) {
                                            None => None,
                                            Some((setup, s)) => match dec_opt_str(s) {
                                                None => None,
                                                Some((run, s)) => Some(
                                                    (
                                                        UserProvidedConfigV {
                                                            port,
                                                            replicas,
                                                            cloud,
                                                            workdir,
                                                            data,
                                                            disk_size,
                                                            cpu,
                                                            memory,
                                                            accelerators,
                                                            setup,
                                                            run,
                                                        },
                                                        s,
                                                    ),
                                                ),
                                            },
                                        },
                                    },
                                },
                            },
                        },
                    },
                },
            },
        },
    }
}

pub open spec fn upc_ok(u: UserProvidedConfigV) -> bool {
    opt_str_ok(u.cloud) && opt_str_ok(u.workdir) && opt_str_ok(u.data) && opt_str_ok(u.cpu)
        && opt_str_ok(u.memory) && opt_str_ok(u.accelerators) && opt_str_ok(u.setup) && opt_str_ok(
        u.run,
    )
}

#[verifier::rlimit(100)]
proof fn lemma_dec_enc_upc(u: UserProvidedConfigV, rest: Seq<u8>)
    requires
        upc_ok(u),
    ensures
        dec_upc(enc_upc(u) + rest) == Some((u, rest)),
{
    reveal(dec_upc);
    reveal(enc_upc);
    let e1 = enc_opt_u16(u.port);
    let e2 = enc_opt_u16(u.replicas);
    let e3 = enc_opt_str(u.cloud);
    let e4 = enc_opt_str(u.workdir);
    let e5 = enc_opt_str(u.data);
    let e6 = enc_opt_u16(u.disk_size);
    let e7 = enc_opt_str(u.cpu);
    let e8 = enc_opt_str(u.memory);
    let e9 = enc_opt_str(u.accelerators);
    let e10 = enc_opt_str(u.setup);
    let e11 = enc_opt_str(u.run);
    let t11 = e11 + rest;
    let t10 = e10 + t11;
    let t9 = e9 + t10;
    let t8 = e8 + t9;
    let t7 = e7 + t8;
    let t6 = e6 + t7;
    let t5 = e5 + t6;
    let t4 = e4 + t5;
    let t3 = e3 + t4;
    let t2 = e2 + t3;
    assert(enc_upc(u) + rest =~= (e1 + e2 + e3 + e4 + e5 + e6 + e7 + e8 + e9 + e10) + t11);
    assert((e1 + e2 + e3 + e4 + e5 + e6 + e7 + e8 + e9 + e10) + t11 =~= (e1 + e2 + e3 + e4 + e5
        + e6 + e7 + e8 + e9) + t10);
    assert((e1 + e2 + e3 + e4 + e5 + e6 + e7 + e8 + e9) + t10 =~= (e1 + e2 + e3 + e4 + e5 + e6 + e7
        + e8) + t9);
    assert((e1 + e2 + e3 + e4 + e5 + e6 + e7 + e8) + t9 =~= (e1 + e2 + e3 + e4 + e5 + e6 + e7)
        + t8);
    assert((e1 + e2 + e3 + e4 + e5 + e6 + e7) + t8 =~= (e1 + e2 + e3 + e4 + e5 + e6) + t7);
    assert((e1 + e2 + e3 + e4 + e5 + e6) + t7 =~= (e1 + e2 + e3 + e4 + e5) + t6);
    assert((e1 + e2 + e3 + e4 + e5) + t6 =~= (e1 + e2 + e3 + e4) + t5);
    assert((e1 + e2 + e3 + e4) + t5 =~= (e1 + e2 + e3) + t4);
    assert((e1 + e2 + e3) + t4 =~= (e1 + e2) + t3);
    assert((e1 + e2) + t3 =~= e1 + t2);
    lemma_dec_enc_opt_u16(u.port, t2);
    lemma_dec_enc_opt_u16(u.replicas, t3);
    lemma_dec_enc_opt_str(u.cloud, t4);
    lemma_dec_enc_opt_str(u.workdir, t5);
    lemma_dec_enc_opt_str(u.data, t6);
    lemma_dec_enc_opt_u16(u.disk_size, t7);
    lemma_dec_enc_opt_str(u.cpu, t8);
    lemma_dec_enc_opt_str(u.memory, t9);
    lemma_dec_enc_opt_str(u.accelerators, t10);
    lemma_dec_enc_opt_str(u.setup, t11);
    lemma_dec_enc_opt_str(u.run, rest);
}

#[verifier::opaque]
pub open spec fn enc_config(c: ConfigurationV) -> Seq<u8> {
    enc_str(c.service.readiness_probe) + enc_u16(c.service.replicas) + enc_u16(c.resources.ports)
        + enc_str(c.resources.cloud) + enc_str(c.resources.cpus) + enc_str(c.resources.memory)
        + enc_u16(c.resources.disk_size) + enc_opt_str(c.resources.accelerators) + enc_str(
        c.workdir,
    ) + enc_str(c.setup) + enc_str(c.run)
}

#[verifier::opaque]
pub open spec fn dec_config(s: Seq<u8>) -> Option<(ConfigurationV, Seq<u8>)> {
    match dec_str(s) {
        None => None,
        Some((readiness_probe, s)) => match dec_u16(s) {
            None => None,
            Some((replicas, s)) => match dec_u16(s) {
                None => None,
                Some((ports, s)) => match dec_str(s) {
                    None => None,
                    Some((cloud, s)) => match dec_str(s) {
                        None => None,
                        Some((cpus, s)) => match dec_str(s) {
                            None => None,
                            Some((memory, s)) => match dec_u16(s) {
                                None => None,
                                Some((disk_size, s)) => match dec_opt_str(s) {
                                    None => None,
                                    Some((accelerators, s)) => match dec_str(s) {
                                        None => None,
                                        Some((workdir, s)) => match dec_str(s) {
                                            None => None,
                                            Some((setup, s)) => match dec_str(s) {
                                                None => None,
                                                Some((run, s)) => Some(
                                                    (
                                                        ConfigurationV {
                                                            service: crate::models::ServiceV {
                                                                readiness_probe,
                                                                replicas,
                                                            },
                                                            resources: crate::models::ResourcesV {
                                                                ports,
                                                                cloud,
                                                                cpus,
                                                                memory,
                                                                disk_size,
                                                                accelerators,
                                                            },
                                                            workdir,
                                                            setup,
                                                            run,
                                                        },
                                                        s,
                                                    ),
                                                ),
                                            },
                                        },
                                    },
                                },
                            },
                        },
                    },
                },
            },
        },
    }
}

pub open spec fn config_ok(c: ConfigurationV) -> bool {
    str_ok(c.service.readiness_probe) && str_ok(c.resources.cloud) && str_ok(c.resources.cpus)
        && str_ok(c.resources.memory) && opt_str_ok(c.resources.accelerators) && str_ok(c.workdir)
        && str_ok(c.setup) && str_ok(c.run)
}

#[verifier::rlimit(100)]
proof fn lemma_dec_enc_config(c: ConfigurationV, rest: Seq<u8>)
    requires
        config_ok(c),
    ensures
        dec_config(enc_config(c) + rest) == Some((c, rest)),
{
    reveal(dec_config);
    reveal(enc_config);
    let e1 = enc_str(c.service.readiness_probe);
    let e2 = enc_u16(c.service.replicas);
    let e3 = enc_u16(c.resources.ports);
    let e4 = enc_str(c.resources.cloud);
    let e5 = enc_str(c.resources.cpus);
    let e6 = enc_str(c.resources.memory);
    let e7 = enc_u16(c.resources.disk_size);
    let e8 = enc_opt_str(c.resources.accelerators);
    let e9 = enc_str(c.workdir);
    let e10 = enc_str(c.setup);
    let e11 = enc_str(c.run);
    let t11 = e11 + rest;
    let t10 = e10 + t11;
    let t9 = e9 + t10;
    let t8 = e8 + t9;
    let t7 = e7 + t8;
    let t6 = e6 + t7;
    let t5 = e5 + t6;
    let t4 = e4 + t5;
    let t3 = e3 + t4;
    let t2 = e2 + t3;
    assert(enc_config(c) + rest =~= (e1 + e2 + e3 + e4 + e5 + e6 + e7 + e8 + e9 + e10) + t11);
    assert((e1 + e2 + e3 + e4 + e5 + e6 + e7 + e8 + e9 + e10) + t11 =~= (e1 + e2 + e3 + e4 + e5
        + e6 + e7 + e8 + e9) + t10);
    assert((e1 + e2 + e3 + e4 + e5 + e6 + e7 + e8 + e9) + t10 =~= (e1 + e2 + e3 + e4 + e5 + e6 + e7
        + e8) + t9);
    assert((e1 + e2 + e3 + e4 + e5 + e6 + e7 + e8) + t9 =~= (e1 + e2 + e3 + e4 + e5 + e6 + e7)
        + t8);
    assert((e1 + e2 + e3 + e4 + e5 + e6 + e7) + t8 =~= (e1 + e2 + e3 + e4 + e5 + e6) + t7);
    assert((e1 + e2 + e3 + e4 + e5 + e6) + t7 =~= (e1 + e2 + e3 + e4 + e5) + t6);
    assert((e1 + e2 + e3 + e4 + e5) + t6 =~= (e1 + e2 + e3 + e4) + t5);
    assert((e1 + e2 + e3 + e4) + t5 =~= (e1 + e2 + e3) + t4);
    assert((e1 + e2 + e3) + t4 =~= (e1 + e2) + t3);
    assert((e1 + e2) + t3 =~= e1 + t2);
    lemma_dec_enc_str(c.service.readiness_probe, t2);
    lemma_dec_enc_u16(c.service.replicas, t3);
    lemma_dec_enc_u16(c.resources.ports, t4);
    lemma_dec_enc_str(c.resources.cloud, t5);
    lemma_dec_enc_str(c.resources.cpus, t6);
    lemma_dec_enc_str(c.resources.memory, t7);
    lemma_dec_enc_u16(c.resources.disk_size, t8);
    lemma_dec_enc_opt_str(c.resources.accelerators, t9);
    lemma_dec_enc_str(c.workdir, t10);
    lemma_dec_enc_str(c.setup, t11);
    lemma_dec_enc_str(c.run, rest);
}

pub open spec fn enc_opt_upc(o: Option<UserProvidedConfigV>) -> Seq<u8> {
    match o {
        None => seq![0u8],
        Some(u) => seq![1u8] + enc_upc(u),
    }
}

pub open spec fn dec_opt_upc(s: Seq<u8>) -> Option<(Option<UserProvidedConfigV>, Seq<u8>)> {
    if s.len() < 1 {
        None
    } else if s[0] == 0u8 {
        Some((None, s.skip(1)))
    } else if s[0] == 1u8 {
        match dec_upc(s.skip(1)) {
            Some((u, r)) => Some((Some(u), r)),
            None => None,
        }
    } else {
        None
    }
}

pub open spec fn opt_upc_ok(o: Option<UserProvidedConfigV>) -> bool {
    match o {
        Some(u) => upc_ok(u),
        None => true,
    }
}

proof fn lemma_dec_enc_opt_upc(o: Option<UserProvidedConfigV>, rest: Seq<u8>)
    requires
        opt_upc_ok(o),
    ensures
        dec_opt_upc(enc_opt_upc(o) + rest) == Some((o, rest)),
{
    match o {
        None => {
            assert((enc_opt_upc(o) + rest).skip(1) =~= rest);
        },
        Some(u) => {
            assert((enc_opt_upc(o) + rest).skip(1) =~= enc_upc(u) + rest);
            lemma_dec_enc_upc(u, rest);
        },
    }
}

#[verifier::opaque]
pub open spec fn enc_record(r: ServiceRecordV) -> Seq<u8> {
    enc_opt_upc(r.data) + enc_config(r.template) + enc_opt_str(r.filepath) + enc_opt_str(r.url)
        + enc_bool(r.up)
}

pub open spec fn dec_record(s: Seq<u8>) -> Option<(ServiceRecordV, Seq<u8>)> {
    match dec_opt_upc(s) {
        None => None,
        Some((data, s)) => match dec_config(s) {
            None => None,
            Some((template, s)) => match dec_opt_str(s) {
                None => None,
                Some((filepath, s)) => match dec_opt_str(s) {
                    None => None,
                    Some((url, s)) => match dec_bool(s) {
                        None => None,
                        Some((up, s)) => {
                            let r = ServiceRecordV { data, template, filepath, url, up };
                            if r.wf() {
                                Some((r, s))
                            } else {
                                None
                            }
                        },
                    },
                },
            },
        },
    }
}

pub open spec fn record_ok(r: ServiceRecordV) -> bool {
    opt_upc_ok(r.data) && config_ok(r.template) && opt_str_ok(r.filepath) && opt_str_ok(r.url)
}

#[verifier::rlimit(100)]
proof fn lemma_dec_enc_record(r: ServiceRecordV, rest: Seq<u8>)
    requires
        record_ok(r),
        r.wf(),
    ensures
        dec_record(enc_record(r) + rest) == Some((r, rest)),
{
    reveal(enc_record);
    let e1 = enc_opt_upc(r.data);
    let e2 = enc_config(r.template);
    let e3 = enc_opt_str(r.filepath);
    let e4 = enc_opt_str(r.url);
    let e5 = enc_bool(r.up);
    let t5 = e5 + rest;
    let t4 = e4 + t5;
    let t3 = e3 + t4;
    let t2 = e2 + t3;
    assert(enc_record(r) + rest =~= (e1 + e2 + e3 + e4) + t5);
    assert((e1 + e2 + e3 + e4) + t5 =~= (e1 + e2 + e3) + t4);
    assert((e1 + e2 + e3) + t4 =~= (e1 + e2) + t3);
    assert((e1 + e2) + t3 =~= e1 + t2);
    lemma_dec_enc_opt_upc(r.data, t2);
    lemma_dec_enc_config(r.template, t3);
    lemma_dec_enc_opt_str(r.filepath, t4);
    lemma_dec_enc_opt_str(r.url, t5);
    lemma_dec_enc_bool(r.up, rest);
}

// ---------------------------------------------------------------------------
// The registry blob
// ---------------------------------------------------------------------------
pub open spec fn enc_pair(p: (Seq<char>, ServiceRecordV)) -> Seq<u8> {
    enc_str(p.0) + enc_record(p.1)
}

pub open spec fn dec_pair(s: Seq<u8>) -> Option<((Seq<char>, ServiceRecordV), Seq<u8>)> {
    match dec_str(s) {
        None => None,
        Some((name, s)) => match dec_record(s) {
            None => None,
            Some((r, s)) => Some(((name, r), s)),
        },
    }
}

pub open spec fn pair_ok(p: (Seq<char>, ServiceRecordV)) -> bool {
    str_ok(p.0) && record_ok(p.1)
}

proof fn lemma_dec_enc_pair(p: (Seq<char>, ServiceRecordV), rest: Seq<u8>)
    requires
        pair_ok(p),
        p.1.wf(),
    ensures
        dec_pair(enc_pair(p) + rest) == Some((p, rest)),
{
    assert(enc_pair(p) + rest =~= enc_str(p.0) + (enc_record(p.1) + rest));
    lemma_dec_enc_str(p.0, enc_record(p.1) + rest);
    lemma_dec_enc_record(p.1, rest);
}

pub open spec fn enc_pairs(ps: PairSeq) -> Seq<u8>
    decreases ps.len(),
{
    if ps.len() == 0 {
        Seq::empty()
    } else {
        enc_pair(ps[0]) + enc_pairs(ps.drop_first())
    }
}

pub open spec fn dec_pairs(s: Seq<u8>, cnt: nat) -> Option<(PairSeq, Seq<u8>)>
    decreases cnt,
{
    if cnt == 0 {
        Some((Seq::empty(), s))
    } else {
        match dec_pair(s) {
            None => None,
            Some((p, s1)) => match dec_pairs(s1, (cnt - 1) as nat) {
                None => None,
                Some((ps, s2)) => Some((seq![p] + ps, s2)),
            },
        }
    }
}

/// Every name and every record of the sequence fits the encoding.
pub open spec fn pairs_ok(ps: PairSeq) -> bool {
    ps.len() < pow256(8) && forall|i: int| 0 <= i < ps.len() ==> pair_ok(#[trigger] ps[i])
}

/// The whole registry: the number of entries, then each name/record pair.
pub open spec fn enc_registry(ps: PairSeq) -> Seq<u8> {
    le_bytes(ps.len() as int, 8) + enc_pairs(ps)
}

pub open spec fn dec_registry(s: Seq<u8>) -> Option<(PairSeq, Seq<u8>)> {
    match dec_le(s, 8) {
        None => None,
        Some((n, s1)) => dec_pairs(s1, n as nat),
    }
}

/// A persisted blob decodes when the registry decoder consumes it whole.
pub open spec fn dec_blob(s: Seq<u8>) -> Option<PairSeq> {
    match dec_registry(s) {
        Some((ps, rest)) => if rest.len() == 0 {
            Some(ps)
        } else {
            None
        },
        None => None,
    }
}

#[verifier::rlimit(100)]
proof fn lemma_dec_enc_pairs(ps: PairSeq, rest: Seq<u8>)
    requires
        forall|i: int| 0 <= i < ps.len() ==> pair_ok(#[trigger] ps[i]),
        forall|i: int| 0 <= i < ps.len() ==> (#[trigger] ps[i]).1.wf(),
    ensures
        dec_pairs(enc_pairs(ps) + rest, ps.len()) == Some((ps, rest)),
    decreases ps.len(),
{
    if ps.len() == 0 {
        assert(enc_pairs(ps) + rest =~= rest);
    } else {
        assert(enc_pairs(ps) + rest =~= enc_pair(ps[0]) + (enc_pairs(ps.drop_first()) + rest));
        lemma_dec_enc_pair(ps[0], enc_pairs(ps.drop_first()) + rest);
        lemma_dec_enc_pairs(ps.drop_first(), rest);
        assert(seq![ps[0]] + ps.drop_first() =~= ps);
    }
}

/// Decoding is owed on exactly what encoding produced: a well-formed
/// registry comes back from its own blob, entry for entry.
pub proof fn lemma_dec_enc_registry(ps: PairSeq)
    requires
        pairs_ok(ps),
        forall|i: int| 0 <= i < ps.len() ==> (#[trigger] ps[i]).1.wf(),
    ensures
        dec_blob(enc_registry(ps)) == Some(ps),
{
    let rest = Seq::<u8>::empty();
    assert(enc_registry(ps) =~= le_bytes(ps.len() as int, 8) + (enc_pairs(ps) + rest));
    lemma_dec_le(ps.len() as int, 8, enc_pairs(ps) + rest);
    lemma_dec_enc_pairs(ps, rest);
}

// ---------------------------------------------------------------------------
// Merging loaded entries
// ---------------------------------------------------------------------------
/// Loaded entries overwrite existing ones, in order: the last load wins.
pub open spec fn merge_pairs(
    m: Map<Seq<char>, ServiceRecordV>,
    ps: PairSeq,
) -> Map<Seq<char>, ServiceRecordV>
    decreases ps.len(),
{
    if ps.len() == 0 {
        m
    } else {
        merge_pairs(m.insert(ps[0].0, ps[0].1), ps.drop_first())
    }
}

proof fn lemma_merge_pairs_push(
    m: Map<Seq<char>, ServiceRecordV>,
    ps: PairSeq,
    p: (Seq<char>, ServiceRecordV),
)
    ensures
        merge_pairs(m, ps.push(p)) == merge_pairs(m, ps).insert(p.0, p.1),
    decreases ps.len(),
{
    if ps.len() == 0 {
        assert(ps.push(p).drop_first() =~= Seq::<(Seq<char>, ServiceRecordV)>::empty());
        assert(ps.push(p)[0] == p);
        assert(merge_pairs(m, ps.push(p)) == merge_pairs(
            m.insert(p.0, p.1),
            ps.push(p).drop_first(),
        ));
        assert(merge_pairs(m.insert(p.0, p.1), ps.push(p).drop_first()) == m.insert(p.0, p.1));
        assert(merge_pairs(m, ps) == m);
    } else {
        assert(ps.push(p)[0] == ps[0]);
        assert(ps.push(p).drop_first() =~= ps.drop_first().push(p));
        lemma_merge_pairs_push(m.insert(ps[0].0, ps[0].1), ps.drop_first(), p);
        assert(merge_pairs(m, ps.push(p)) == merge_pairs(
            m.insert(ps[0].0, ps[0].1),
            ps.drop_first().push(p),
        ));
        assert(merge_pairs(m, ps) == merge_pairs(m.insert(ps[0].0, ps[0].1), ps.drop_first()));
    }
}

/// Merging a pair sequence into an empty registry reproduces exactly the
/// mapping that the sequence denotes.
pub proof fn lemma_merge_into_empty(ps: PairSeq)
    ensures
        merge_pairs(Map::<Seq<char>, ServiceRecordV>::empty(), ps) == map_of(ps),
    decreases ps.len(),
{
    if ps.len() == 0 {
    } else {
        lemma_merge_into_empty(ps.drop_last());
        assert(ps =~= ps.drop_last().push(ps.last()));
        lemma_merge_pairs_push(
            Map::<Seq<char>, ServiceRecordV>::empty(),
            ps.drop_last(),
            ps.last(),
        );
    }
}

/// Persistence round trip: a well-formed registry, encoded and decoded,
/// yields its entries back unchanged, and loading them into an empty store
/// rebuilds an equal mapping.
pub proof fn lemma_persistence_round_trip(ps: PairSeq)
    requires
        pairs_ok(ps),
        forall|i: int| 0 <= i < ps.len() ==> (#[trigger] ps[i]).1.wf(),
    ensures
        dec_blob(enc_registry(ps)) == Some(ps),
        merge_pairs(Map::<Seq<char>, ServiceRecordV>::empty(), ps) == map_of(ps),
{
    lemma_dec_enc_registry(ps);
    lemma_merge_into_empty(ps);
}

// ---------------------------------------------------------------------------
// Trusted edge: pushed characters, checked code points, base64 armour
// ---------------------------------------------------------------------------
/// Relies on String::push: it appends exactly the given character.
pub assume_specification [ String::push ](s: &mut String, c: char)
    ensures
        final(s)@ == old(s)@.push(c),
;

/// Relies on char::from_u32: it returns the character of the given code
/// point exactly when that value is a Unicode scalar value.
pub assume_specification [ char::from_u32 ](u: u32) -> (r: Option<char>)
    ensures
        r matches Some(c) ==> c as u32 == u,
        r is Some <==> valid_scalar(u as int),
;

/// The text that the standard base64 alphabet assigns to a byte sequence.
pub uninterp spec fn b64_of(b: Seq<u8>) -> Seq<char>;

/// Relies on base64's BASE64_STANDARD engine: encoding is a pure function
/// of the bytes.
#[verifier::external_body]
pub(crate) fn b64_encode(b: &Vec<u8>) -> (r: String)
    ensures
        r@ == b64_of(b@),
{
    base64::prelude::BASE64_STANDARD.encode(b.as_slice())
}

#[verifier::external_type_specification]
#[verifier::external_body]
pub struct ExDecodeError(base64::DecodeError);

/// Relies on base64's BASE64_STANDARD engine: decoding succeeds exactly on
/// the texts that encoding produces, and inverts it; the alphabet makes the
/// encoding of distinct byte sequences distinct.
#[verifier::external_body]
pub(crate) fn b64_decode(s: &str) -> (r: Result<Vec<u8>, base64::DecodeError>)
    ensures
        (exists|b: Seq<u8>| s@ == #[trigger] b64_of(b)) ==> r is Ok,
        r matches Ok(v) ==> s@ == b64_of(v@) && (forall|b: Seq<u8>|
            #[trigger] b64_of(b) == s@ ==> b == v@),
{
    base64::prelude::BASE64_STANDARD.decode(s)
}

// ---------------------------------------------------------------------------
// Encoding
// ---------------------------------------------------------------------------
proof fn lemma_enc_chars_push(t: Seq<char>, c: char)
    ensures
        enc_chars(t.push(c)) == enc_chars(t) + enc_char(c),
    decreases t.len(),
{
    if t.len() == 0 {
        assert(t.push(c)[0] == c);
        assert(t.push(c).drop_first() =~= Seq::<char>::empty());
        assert(enc_chars(t.push(c)) == enc_char(c) + enc_chars(Seq::<char>::empty()));
        assert(enc_chars(t.push(c)) =~= enc_chars(t) + enc_char(c));
    } else {
        assert(t.push(c)[0] == t[0]);
        assert(t.push(c).drop_first() =~= t.drop_first().push(c));
        lemma_enc_chars_push(t.drop_first(), c);
        assert(enc_chars(t.push(c)) == enc_char(t[0]) + enc_chars(t.drop_first().push(c)));
        assert(enc_chars(t.push(c)) =~= enc_chars(t) + enc_char(c));
    }
}

proof fn lemma_enc_pairs_push(ps: PairSeq, p: (Seq<char>, ServiceRecordV))
    ensures
        enc_pairs(ps.push(p)) == enc_pairs(ps) + enc_pair(p),
    decreases ps.len(),
{
    if ps.len() == 0 {
        assert(ps.push(p)[0] == p);
        assert(ps.push(p).drop_first() =~= Seq::<(Seq<char>, ServiceRecordV)>::empty());
        assert(enc_pairs(ps.push(p)) == enc_pair(p) + enc_pairs(
            Seq::<(Seq<char>, ServiceRecordV)>::empty(),
        ));
        assert(enc_pairs(ps.push(p)) =~= enc_pairs(ps) + enc_pair(p));
    } else {
        assert(ps.push(p)[0] == ps[0]);
        assert(ps.push(p).drop_first() =~= ps.drop_first().push(p));
        lemma_enc_pairs_push(ps.drop_first(), p);
        assert(enc_pairs(ps.push(p)) == enc_pair(ps[0]) + enc_pairs(ps.drop_first().push(p)));
        assert(enc_pairs(ps.push(p)) =~= enc_pairs(ps) + enc_pair(p));
    }
}

/// Appends the `k` little-endian bytes of `x`.
fn push_le(out: &mut Vec<u8>, x: u64, k: usize)
    ensures
        final(out)@ == old(out)@ + le_bytes(x as int, k as nat),
    decreases k,
{
    if k == 0 {
        proof {
            assert(old(out)@ + le_bytes(x as int, 0) =~= old(out)@);
        }
    } else {
        let byte = (x % 256) as u8;
        out.push(byte);
        push_le(out, x / 256, k - 1);
        proof {
            assert(out@ =~= old(out)@ + le_bytes(x as int, k as nat));
        }
    }
}

fn push_u16(out: &mut Vec<u8>, v: u16)
    ensures
        final(out)@ == old(out)@ + enc_u16(v),
{
    push_le(out, v as u64, 2);
}

fn push_bool(out: &mut Vec<u8>, v: bool)
    ensures
        final(out)@ == old(out)@ + enc_bool(v),
{
    out.push(if v { 1u8 } else { 0u8 });
    proof {
        assert(out@ =~= old(out)@ + enc_bool(v));
    }
}

/// Appends a string: its character count, then each code point.
fn push_str(out: &mut Vec<u8>, s: &String)
    ensures
        final(out)@ == old(out)@ + enc_str(s@),
        str_ok(s@),
{
    proof {
        lemma_pow256_vals();
    }
    let n = s.as_str().unicode_len();
    push_le(out, n as u64, 8);
    let ghost base = out@;
    let mut j: usize = 0;
    proof {
        assert(s@.take(0) =~= Seq::<char>::empty());
        assert(base + enc_chars(s@.take(0)) =~= base);
    }
    while j < n
        invariant
            n == s@.len(),
            j <= n,
            base == old(out)@ + le_bytes(n as u64 as int, 8),
            out@ == base + enc_chars(s@.take(j as int)),
        decreases n - j,
    {
        let c = s.as_str().get_char(j);
        push_le(out, c as u32 as u64, 4);
        proof {
            lemma_enc_chars_push(s@.take(j as int), s@[j as int]);
            assert(s@.take(j as int + 1) =~= s@.take(j as int).push(s@[j as int]));
            assert(out@ =~= base + enc_chars(s@.take(j as int + 1)));
        }
        j = j + 1;
    }
    proof {
        reveal(enc_str);
        assert(s@.take(n as int) =~= s@);
        assert(out@ =~= old(out)@ + enc_str(s@));
    }
}

fn push_opt_str(out: &mut Vec<u8>, o: &Option<String>)
    ensures
        final(out)@ == old(out)@ + enc_opt_str(crate::models::opt_str_view(*o)),
        opt_str_ok(crate::models::opt_str_view(*o)),
{
    proof {
        reveal(enc_opt_str);
    }
    match o {
        None => {
            out.push(0u8);
            proof {
                assert(out@ =~= old(out)@ + enc_opt_str(crate::models::opt_str_view(*o)));
            }
        },
        Some(t) => {
            out.push(1u8);
            push_str(out, t);
            proof {
                assert(out@ =~= old(out)@ + enc_opt_str(crate::models::opt_str_view(*o)));
            }
        },
    }
}

fn push_opt_u16(out: &mut Vec<u8>, o: &Option<u16>)
    ensures
        final(out)@ == old(out)@ + enc_opt_u16(*o),
{
    proof {
        reveal(enc_opt_u16);
    }
    match o {
        None => {
            out.push(0u8);
            proof {
                assert(out@ =~= old(out)@ + enc_opt_u16(*o));
            }
        },
        Some(v) => {
            out.push(1u8);
            push_u16(out, *v);
            proof {
                assert(out@ =~= old(out)@ + enc_opt_u16(*o));
            }
        },
    }
}

fn push_upc(out: &mut Vec<u8>, u: &UserProvidedConfig)
    ensures
        final(out)@ == old(out)@ + enc_upc(u@),
        upc_ok(u@),
{
    let ghost o0 = out@;
    let ghost e1 = enc_opt_u16(u@.port);
    let ghost e2 = enc_opt_u16(u@.replicas);
    let ghost e3 = enc_opt_str(u@.cloud);
    let ghost e4 = enc_opt_str(u@.workdir);
    let ghost e5 = enc_opt_str(u@.data);
    let ghost e6 = enc_opt_u16(u@.disk_size);
    let ghost e7 = enc_opt_str(u@.cpu);
    let ghost e8 = enc_opt_str(u@.memory);
    let ghost e9 = enc_opt_str(u@.accelerators);
    let ghost e10 = enc_opt_str(u@.setup);
    let ghost e11 = enc_opt_str(u@.run);
    push_opt_u16(out, &u.port);
    push_opt_u16(out, &u.replicas);
    proof {
        assert(out@ =~= o0 + (e1 + e2));
    }
    push_opt_str(out, &u.cloud);
    proof {
        assert(out@ =~= o0 + (e1 + e2 + e3));
    }
    push_opt_str(out, &u.workdir);
    proof {
        assert(out@ =~= o0 + (e1 + e2 + e3 + e4));
    }
    push_opt_str(out, &u.data);
    proof {
        assert(out@ =~= o0 + (e1 + e2 + e3 + e4 + e5));
    }
    push_opt_u16(out, &u.disk_size);
    proof {
        assert(out@ =~= o0 + (e1 + e2 + e3 + e4 + e5 + e6));
    }
    push_opt_str(out, &u.cpu);
    proof {
        assert(out@ =~= o0 + (e1 + e2 + e3 + e4 + e5 + e6 + e7));
    }
    push_opt_str(out, &u.memory);
    proof {
        assert(out@ =~= o0 + (e1 + e2 + e3 + e4 + e5 + e6 + e7 + e8));
    }
    push_opt_str(out, &u.accelerators);
    proof {
        assert(out@ =~= o0 + (e1 + e2 + e3 + e4 + e5 + e6 + e7 + e8 + e9));
    }
    push_opt_str(out, &u.setup);
    proof {
        assert(out@ =~= o0 + (e1 + e2 + e3 + e4 + e5 + e6 + e7 + e8 + e9 + e10));
    }
    push_opt_str(out, &u.run);
    proof {
        assert(out@ =~= o0 + (e1 + e2 + e3 + e4 + e5 + e6 + e7 + e8 + e9 + e10 + e11));
        reveal(enc_upc);
        assert(out@ =~= old(out)@ + enc_upc(u@));
    }
}

fn push_config(out: &mut Vec<u8>, c: &Configuration)
    ensures
        final(out)@ == old(out)@ + enc_config(c@),
        config_ok(c@),
{
    let ghost o0 = out@;
    let ghost e1 = enc_str(c@.service.readiness_probe);
    let ghost e2 = enc_u16(c@.service.replicas);
    let ghost e3 = enc_u16(c@.resources.ports);
    let ghost e4 = enc_str(c@.resources.cloud);
    let ghost e5 = enc_str(c@.resources.cpus);
    let ghost e6 = enc_str(c@.resources.memory);
    let ghost e7 = enc_u16(c@.resources.disk_size);
    let ghost e8 = enc_opt_str(c@.resources.accelerators);
    let ghost e9 = enc_str(c@.workdir);
    let ghost e10 = enc_str(c@.setup);
    let ghost e11 = enc_str(c@.run);
    push_str(out, &c.service.readiness_probe);
    push_u16(out, c.service.replicas);
    proof {
        assert(out@ =~= o0 + (e1 + e2));
    }
    push_u16(out, c.resources.ports);
    proof {
        assert(out@ =~= o0 + (e1 + e2 + e3));
    }
    push_str(out, &c.resources.cloud);
    proof {
        assert(out@ =~= o0 + (e1 + e2 + e3 + e4));
    }
    push_str(out, &c.resources.cpus);
    proof {
        assert(out@ =~= o0 + (e1 + e2 + e3 + e4 + e5));
    }
    push_str(out, &c.resources.memory);
    proof {
        assert(out@ =~= o0 + (e1 + e2 + e3 + e4 + e5 + e6));
    }
    push_u16(out, c.resources.disk_size);
    proof {
        assert(out@ =~= o0 + (e1 + e2 + e3 + e4 + e5 + e6 + e7));
    }
    push_opt_str(out, &c.resources.accelerators);
    proof {
        assert(out@ =~= o0 + (e1 + e2 + e3 + e4 + e5 + e6 + e7 + e8));
    }
    push_str(out, &c.workdir);
    proof {
        assert(out@ =~= o0 + (e1 + e2 + e3 + e4 + e5 + e6 + e7 + e8 + e9));
    }
    push_str(out, &c.setup);
    proof {
        assert(out@ =~= o0 + (e1 + e2 + e3 + e4 + e5 + e6 + e7 + e8 + e9 + e10));
    }
    push_str(out, &c.run);
    proof {
        assert(out@ =~= o0 + (e1 + e2 + e3 + e4 + e5 + e6 + e7 + e8 + e9 + e10 + e11));
        reveal(enc_config);
        assert(out@ =~= old(out)@ + enc_config(c@));
    }
}

fn push_opt_upc(out: &mut Vec<u8>, o: &Option<UserProvidedConfig>)
    ensures
        final(out)@ == old(out)@ + enc_opt_upc(match *o {
            Some(u) => Some(u@),
            None => None,
        }),
        opt_upc_ok(match *o {
            Some(u) => Some(u@),
            None => None,
        }),
{
    match o {
        None => {
            out.push(0u8);
            proof {
                assert(out@ =~= old(out)@ + seq![0u8]);
            }
        },
        Some(u) => {
            out.push(1u8);
            push_upc(out, u);
            proof {
                assert(out@ =~= old(out)@ + (seq![1u8] + enc_upc(u@)));
            }
        },
    }
}

fn push_record(out: &mut Vec<u8>, r: &ServiceRecord)
    ensures
        final(out)@ == old(out)@ + enc_record(r@),
        record_ok(r@),
{
    let ghost o0 = out@;
    let ghost e1 = enc_opt_upc(r@.data);
    let ghost e2 = enc_config(r@.template);
    let ghost e3 = enc_opt_str(r@.filepath);
    let ghost e4 = enc_opt_str(r@.url);
    let ghost e5 = enc_bool(r@.up);
    push_opt_upc(out, &r.data);
    push_config(out, &r.template);
    proof {
        assert(out@ =~= o0 + (e1 + e2));
    }
    push_opt_str(out, &r.filepath);
    proof {
        assert(out@ =~= o0 + (e1 + e2 + e3));
    }
    push_opt_str(out, &r.url);
    proof {
        assert(out@ =~= o0 + (e1 + e2 + e3 + e4));
    }
    push_bool(out, r.up);
    proof {
        assert(out@ =~= o0 + (e1 + e2 + e3 + e4 + e5));
        reveal(enc_record);
        assert(out@ =~= old(out)@ + enc_record(r@));
    }
}

/// The name/record pairs an entry vector denotes.
pub open spec fn pairs_view(es: Seq<(String, ServiceRecord)>) -> PairSeq {
    Seq::new(es.len(), |i: int| (es[i].0@, es[i].1@))
}

/// Serializes a whole registry walk into the fixed binary encoding.
pub fn encode_registry(entries: &Vec<(String, ServiceRecord)>) -> (out: Vec<u8>)
    ensures
        out@ == enc_registry(pairs_view(entries@)),
        pairs_ok(pairs_view(entries@)),
{
    proof {
        lemma_pow256_vals();
    }
    let ghost pv = pairs_view(entries@);
    let n = entries.len();
    let mut out: Vec<u8> = Vec::new();
    push_le(&mut out, n as u64, 8);
    let ghost base = out@;
    let mut j: usize = 0;
    proof {
        assert(pv.take(0) =~= Seq::<(Seq<char>, ServiceRecordV)>::empty());
        assert(base + enc_pairs(pv.take(0)) =~= base);
    }
    while j < n
        invariant
            n == entries@.len(),
            pv == pairs_view(entries@),
            j <= n,
            base == Seq::<u8>::empty() + le_bytes(n as u64 as int, 8),
            out@ == base + enc_pairs(pv.take(j as int)),
            forall|i: int| 0 <= i < j ==> pair_ok(#[trigger] pv[i]),
        decreases n - j,
    {
        let entry = &entries[j];
        push_str(&mut out, &entry.0);
        push_record(&mut out, &entry.1);
        proof {
            lemma_enc_pairs_push(pv.take(j as int), pv[j as int]);
            assert(pv.take(j as int + 1) =~= pv.take(j as int).push(pv[j as int]));
            assert(out@ =~= base + enc_pairs(pv.take(j as int + 1)));
        }
        j = j + 1;
    }
    proof {
        assert(pv.take(n as int) =~= pv);
        assert(out@ =~= enc_registry(pv));
    }
    out
}

// ---------------------------------------------------------------------------
// Decoding
// ---------------------------------------------------------------------------
/// Reads `k` little-endian bytes at `pos`.
fn read_le(b: &Vec<u8>, pos: usize, k: usize) -> (r: Option<(u64, usize)>)
    requires
        pos <= b@.len(),
        k <= 8,
    ensures
        match r {
            Some(vp) => pos <= vp.1 <= b@.len() && (vp.0 as int) < pow256(k as nat) && dec_le(
                b@.skip(pos as int),
                k as nat,
            ) == Some((vp.0 as int, b@.skip(vp.1 as int))),
            None => dec_le(b@.skip(pos as int), k as nat) is None,
        },
    decreases k,
{
    if k == 0 {
        proof {
            assert(b@.skip(pos as int).take(0) =~= Seq::<u8>::empty());
            assert(b@.skip(pos as int).skip(0) =~= b@.skip(pos as int));
        }
        Some((0u64, pos))
    } else if pos < b.len() {
        let first = b[pos];
        match read_le(b, pos + 1, k - 1) {
            None => {
                proof {
                    assert(b@.skip(pos as int + 1).len() < (k - 1) as nat);
                    assert(b@.skip(pos as int).len() < k as nat);
                }
                None
            },
            Some(vp) => {
                proof {
                    lemma_pow256_le((k - 1) as nat, 7);
                    lemma_pow256_vals();
                }
                let v = first as u64 + 256 * vp.0;
                proof {
                    let s = b@.skip(pos as int);
                    let s1 = b@.skip(pos as int + 1);
                    assert(s.len() >= k as nat);
                    assert(s.take(k as int)[0] == first);
                    assert(s.take(k as int).drop_first() =~= s1.take(k as int - 1));
                    assert(s.skip(k as int) =~= s1.skip(k as int - 1));
                    assert(le_val(s.take(k as int)) == first + 256 * le_val(s1.take(k as int - 1)));
                    assert((v as int) < pow256(k as nat));
                }
                Some((v, vp.1))
            },
        }
    } else {
        proof {
            assert(b@.skip(pos as int).len() < k as nat);
        }
        None
    }
}

fn read_u16(b: &Vec<u8>, pos: usize) -> (r: Option<(u16, usize)>)
    requires
        pos <= b@.len(),
    ensures
        match r {
            Some(vp) => pos <= vp.1 <= b@.len() && dec_u16(b@.skip(pos as int)) == Some(
                (vp.0, b@.skip(vp.1 as int)),
            ),
            None => dec_u16(b@.skip(pos as int)) is None,
        },
{
    proof {
        lemma_pow256_vals();
    }
    match read_le(b, pos, 2) {
        None => None,
        Some(vp) => Some((vp.0 as u16, vp.1)),
    }
}

fn read_bool(b: &Vec<u8>, pos: usize) -> (r: Option<(bool, usize)>)
    requires
        pos <= b@.len(),
    ensures
        match r {
            Some(vp) => pos <= vp.1 <= b@.len() && dec_bool(b@.skip(pos as int)) == Some(
                (vp.0, b@.skip(vp.1 as int)),
            ),
            None => dec_bool(b@.skip(pos as int)) is None,
        },
{
    if pos < b.len() {
        let tag = b[pos];
        proof {
            assert(b@.skip(pos as int)[0] == tag);
            assert(b@.skip(pos as int).skip(1) =~= b@.skip(pos as int + 1));
        }
        if tag == 0 {
            Some((false, pos + 1))
        } else if tag == 1 {
            Some((true, pos + 1))
        } else {
            None
        }
    } else {
        None
    }
}

/// Reads a string: its character count, then each code point, rejecting any
/// value that is not a Unicode scalar.
fn read_str(b: &Vec<u8>, pos: usize) -> (r: Option<(String, usize)>)
    requires
        pos <= b@.len(),
    ensures
        match r {
            Some(vp) => pos <= vp.1 <= b@.len() && dec_str(b@.skip(pos as int)) == Some(
                (vp.0@, b@.skip(vp.1 as int)),
            ),
            None => dec_str(b@.skip(pos as int)) is None,
        },
{
    match read_le(b, pos, 8) {
        None => None,
        Some(np) => {
            let n = np.0;
            let p1 = np.1;
            let ghost s1 = b@.skip(p1 as int);
            let mut acc = String::new();
            let mut cur: usize = p1;
            let mut i: u64 = 0;
            proof {
                assert(acc@ =~= Seq::<char>::empty());
            }
            while i < n
                invariant
                    i <= n,
                    pos <= p1 <= cur <= b@.len(),
                    s1 == b@.skip(p1 as int),
                    dec_le(b@.skip(pos as int), 8) == Some((n as int, s1)),
                    match dec_chars(b@.skip(cur as int), (n - i) as nat) {
                        Some(tr) => dec_chars(s1, n as nat) == Some((acc@ + tr.0, tr.1)),
                        None => dec_chars(s1, n as nat) is None,
                    },
                decreases n - i,
            {
                let ghost cur0 = cur;
                let ghost acc0 = acc@;
                let ghost rem = (n - i) as nat;
                match read_le(b, cur, 4) {
                    None => {
                        proof {
                            assert(dec_char(b@.skip(cur0 as int)) is None);
                            assert(dec_chars(b@.skip(cur0 as int), rem) is None);
                        }
                        return None;
                    },
                    Some(up) => {
                        proof {
                            lemma_pow256_vals();
                        }
                        let u = up.0 as u32;
                        match char::from_u32(u) {
                            None => {
                                proof {
                                    assert(up.0 as int == u as int);
                                    assert(!valid_scalar(up.0 as int));
                                    assert(dec_char(b@.skip(cur0 as int)) is None);
                                    assert(dec_chars(b@.skip(cur0 as int), rem) is None);
                                }
                                return None;
                            },
                            Some(c) => {
                                proof {
                                    assert(up.0 as int == u as int);
                                    assert(c as u32 == u);
                                    assert(valid_scalar(up.0 as int));
                                    assert(((up.0 as int) as u32) == u);
                                    vstd::utf8::char_u32_cast(c, u);
                                    assert((((up.0 as int) as u32) as char) == c);
                                    assert(dec_char(b@.skip(cur0 as int)) == Some(
                                        (c, b@.skip(up.1 as int)),
                                    ));
                                }
                                acc.push(c);
                                cur = up.1;
                                i = i + 1;
                                proof {
                                    assert(acc@ =~= acc0.push(c));
                                    match dec_chars(b@.skip(cur as int), (n - i) as nat) {
                                        Some(tr) => {
                                            assert(dec_chars(b@.skip(cur0 as int), rem) == Some(
                                                (seq![c] + tr.0, tr.1),
                                            ));
                                            assert(acc0 + (seq![c] + tr.0) =~= acc@ + tr.0);
                                        },
                                        None => {
                                            assert(dec_chars(b@.skip(cur0 as int), rem) is None);
                                        },
                                    }
                                }
                            },
                        }
                    },
                }
            }
            proof {
                assert(dec_chars(b@.skip(cur as int), (n - i) as nat) == Some(
                    (Seq::<char>::empty(), b@.skip(cur as int)),
                ));
                assert(acc@ + Seq::<char>::empty() =~= acc@);
            }
            Some((acc, cur))
        },
    }
}

fn read_opt_str(b: &Vec<u8>, pos: usize) -> (r: Option<(Option<String>, usize)>)
    requires
        pos <= b@.len(),
    ensures
        match r {
            Some(vp) => pos <= vp.1 <= b@.len() && dec_opt_str(b@.skip(pos as int)) == Some(
                (crate::models::opt_str_view(vp.0), b@.skip(vp.1 as int)),
            ),
            None => dec_opt_str(b@.skip(pos as int)) is None,
        },
{
    if pos < b.len() {
        let tag = b[pos];
        proof {
            assert(b@.skip(pos as int)[0] == tag);
            assert(b@.skip(pos as int).skip(1) =~= b@.skip(pos as int + 1));
        }
        if tag == 0 {
            Some((None, pos + 1))
        } else if tag == 1 {
            match read_str(b, pos + 1) {
                None => None,
                Some(vp) => Some((Some(vp.0), vp.1)),
            }
        } else {
            None
        }
    } else {
        None
    }
}

fn read_opt_u16(b: &Vec<u8>, pos: usize) -> (r: Option<(Option<u16>, usize)>)
    requires
        pos <= b@.len(),
    ensures
        match r {
            Some(vp) => pos <= vp.1 <= b@.len() && dec_opt_u16(b@.skip(pos as int)) == Some(
                (vp.0, b@.skip(vp.1 as int)),
            ),
            None => dec_opt_u16(b@.skip(pos as int)) is None,
        },
{
    if pos < b.len() {
        let tag = b[pos];
        proof {
            assert(b@.skip(pos as int)[0] == tag);
            assert(b@.skip(pos as int).skip(1) =~= b@.skip(pos as int + 1));
        }
        if tag == 0 {
            Some((None, pos + 1))
        } else if tag == 1 {
            match read_u16(b, pos + 1) {
                None => None,
                Some(vp) => Some((Some(vp.0), vp.1)),
            }
        } else {
            None
        }
    } else {
        None
    }
}

fn read_upc(b: &Vec<u8>, pos: usize) -> (r: Option<(UserProvidedConfig, usize)>)
    requires
        pos <= b@.len(),
    ensures
        match r {
            Some(vp) => pos <= vp.1 <= b@.len() && dec_upc(b@.skip(pos as int)) == Some(
                (vp.0@, b@.skip(vp.1 as int)),
            ),
            None => dec_upc(b@.skip(pos as int)) is None,
        },
{
    proof {
        reveal(dec_upc);
    }
    let r1 = match read_opt_u16(b, pos) {
        None => {
            return None;
        },
        Some(x) => x,
    };
    let r2 = match read_opt_u16(b, r1.1) {
        None => {
            return None;
        },
        Some(x) => x,
    };
    let r3 = match read_opt_str(b, r2.1) {
        None => {
            return None;
        },
        Some(x) => x,
    };
    let r4 = match read_opt_str(b, r3.1) {
        None => {
            return None;
        },
        Some(x) => x,
    };
    let r5 = match read_opt_str(b, r4.1) {
        None => {
            return None;
        },
        Some(x) => x,
    };
    let r6 = match read_opt_u16(b, r5.1) {
        None => {
            return None;
        },
        Some(x) => x,
    };
    let r7 = match read_opt_str(b, r6.1) {
        None => {
            return None;
        },
        Some(x) => x,
    };
    let r8 = match read_opt_str(b, r7.1) {
        None => {
            return None;
        },
        Some(x) => x,
    };
    let r9 = match read_opt_str(b, r8.1) {
        None => {
            return None;
        },
        Some(x) => x,
    };
    let r10 = match read_opt_str(b, r9.1) {
        None => {
            return None;
        },
        Some(x) => x,
    };
    let r11 = match read_opt_str(b, r10.1) {
        None => {
            return None;
        },
        Some(x) => x,
    };
    let u = UserProvidedConfig {
        port: r1.0,
        replicas: r2.0,
        cloud: r3.0,
        workdir: r4.0,
        data: r5.0,
        disk_size: r6.0,
        cpu: r7.0,
        memory: r8.0,
        accelerators: r9.0,
        setup: r10.0,
        run: r11.0,
    };
    Some((u, r11.1))
}

fn read_config(b: &Vec<u8>, pos: usize) -> (r: Option<(Configuration, usize)>)
    requires
        pos <= b@.len(),
    ensures
        match r {
            Some(vp) => pos <= vp.1 <= b@.len() && dec_config(b@.skip(pos as int)) == Some(
                (vp.0@, b@.skip(vp.1 as int)),
            ),
            None => dec_config(b@.skip(pos as int)) is None,
        },
{
    proof {
        reveal(dec_config);
    }
    let r1 = match read_str(b, pos) {
        None => {
            return None;
        },
        Some(x) => x,
    };
    let r2 = match read_u16(b, r1.1) {
        None => {
            return None;
        },
        Some(x) => x,
    };
    let r3 = match read_u16(b, r2.1) {
        None => {
            return None;
        },
        Some(x) => x,
    };
    let r4 = match read_str(b, r3.1) {
        None => {
            return None;
        },
        Some(x) => x,
    };
    let r5 = match read_str(b, r4.1) {
        None => {
            return None;
        },
        Some(x) => x,
    };
    let r6 = match read_str(b, r5.1) {
        None => {
            return None;
        },
        Some(x) => x,
    };
    let r7 = match read_u16(b, r6.1) {
        None => {
            return None;
        },
        Some(x) => x,
    };
    let r8 = match read_opt_str(b, r7.1) {
        None => {
            return None;
        },
        Some(x) => x,
    };
    let r9 = match read_str(b, r8.1) {
        None => {
            return None;
        },
        Some(x) => x,
    };
    let r10 = match read_str(b, r9.1) {
        None => {
            return None;
        },
        Some(x) => x,
    };
    let r11 = match read_str(b, r10.1) {
        None => {
            return None;
        },
        Some(x) => x,
    };
    let c = Configuration {
        service: Service { readiness_probe: r1.0, replicas: r2.0 },
        resources: Resources {
            ports: r3.0,
            cloud: r4.0,
            cpus: r5.0,
            memory: r6.0,
            disk_size: r7.0,
            accelerators: r8.0,
        },
        workdir: r9.0,
        setup: r10.0,
        run: r11.0,
    };
    Some((c, r11.1))
}

fn read_opt_upc(b: &Vec<u8>, pos: usize) -> (r: Option<(Option<UserProvidedConfig>, usize)>)
    requires
        pos <= b@.len(),
    ensures
        match r {
            Some(vp) => pos <= vp.1 <= b@.len() && dec_opt_upc(b@.skip(pos as int)) == Some(
                (
                    match vp.0 {
                        Some(u) => Some(u@),
                        None => None,
                    },
                    b@.skip(vp.1 as int),
                ),
            ),
            None => dec_opt_upc(b@.skip(pos as int)) is None,
        },
{
    if pos < b.len() {
        let tag = b[pos];
        proof {
            assert(b@.skip(pos as int)[0] == tag);
            assert(b@.skip(pos as int).skip(1) =~= b@.skip(pos as int + 1));
        }
        if tag == 0 {
            Some((None, pos + 1))
        } else if tag == 1 {
            match read_upc(b, pos + 1) {
                None => None,
                Some(vp) => Some((Some(vp.0), vp.1)),
            }
        } else {
            None
        }
    } else {
        None
    }
}

/// Reads one service record, rejecting a record that claims to be up
/// without an endpoint.
fn read_record(b: &Vec<u8>, pos: usize) -> (r: Option<(ServiceRecord, usize)>)
    requires
        pos <= b@.len(),
    ensures
        match r {
            Some(vp) => pos <= vp.1 <= b@.len() && dec_record(b@.skip(pos as int)) == Some(
                (vp.0@, b@.skip(vp.1 as int)),
            ) && vp.0@.wf(),
            None => dec_record(b@.skip(pos as int)) is None,
        },
{
    let r1 = match read_opt_upc(b, pos) {
        None => {
            return None;
        },
        Some(x) => x,
    };
    let r2 = match read_config(b, r1.1) {
        None => {
            return None;
        },
        Some(x) => x,
    };
    let r3 = match read_opt_str(b, r2.1) {
        None => {
            return None;
        },
        Some(x) => x,
    };
    let r4 = match read_opt_str(b, r3.1) {
        None => {
            return None;
        },
        Some(x) => x,
    };
    let r5 = match read_bool(b, r4.1) {
        None => {
            return None;
        },
        Some(x) => x,
    };
    let rec = ServiceRecord {
        data: r1.0,
        template: r2.0,
        filepath: r3.0,
        url: r4.0,
        up: r5.0,
    };
    if rec.up && rec.url.is_none() {
        return None;
    }
    Some((rec, r5.1))
}

fn read_pair(b: &Vec<u8>, pos: usize) -> (r: Option<((String, ServiceRecord), usize)>)
    requires
        pos <= b@.len(),
    ensures
        match r {
            Some(vp) => pos <= vp.1 <= b@.len() && dec_pair(b@.skip(pos as int)) == Some(
                ((vp.0.0@, vp.0.1@), b@.skip(vp.1 as int)),
            ) && vp.0.1@.wf(),
            None => dec_pair(b@.skip(pos as int)) is None,
        },
{
    let r1 = match read_str(b, pos) {
        None => {
            return None;
        },
        Some(x) => x,
    };
    let r2 = match read_record(b, r1.1) {
        None => {
            return None;
        },
        Some(x) => x,
    };
    Some(((r1.0, r2.0), r2.1))
}

/// Deserializes a whole persisted blob; the decoder must consume it whole.
pub fn decode_blob(b: &Vec<u8>) -> (r: Option<Vec<(String, ServiceRecord)>>)
    ensures
        match r {
            Some(v) => dec_blob(b@) == Some(pairs_view(v@)) && (forall|i: int|
                0 <= i < v@.len() ==> (#[trigger] v@[i]).1@.wf()),
            None => dec_blob(b@) is None,
        },
{
    proof {
        assert(b@.skip(0) =~= b@);
    }
    match read_le(b, 0, 8) {
        None => None,
        Some(np) => {
            let n = np.0;
            let p1 = np.1;
            let ghost s1 = b@.skip(p1 as int);
            let mut acc: Vec<(String, ServiceRecord)> = Vec::new();
            let mut cur: usize = p1;
            let mut i: u64 = 0;
            proof {
                assert(pairs_view(acc@) =~= Seq::<(Seq<char>, ServiceRecordV)>::empty());
            }
            while i < n
                invariant
                    i <= n,
                    p1 <= cur <= b@.len(),
                    s1 == b@.skip(p1 as int),
                    dec_le(b@, 8) == Some((n as int, s1)),
                    match dec_pairs(b@.skip(cur as int), (n - i) as nat) {
                        Some(tr) => dec_pairs(s1, n as nat) == Some((pairs_view(acc@) + tr.0, tr.1)),
                        None => dec_pairs(s1, n as nat) is None,
                    },
                    forall|j: int| 0 <= j < acc@.len() ==> (#[trigger] acc@[j]).1@.wf(),
                decreases n - i,
            {
                let ghost cur0 = cur;
                let ghost rem = (n - i) as nat;
                let ghost pv0 = pairs_view(acc@);
                match read_pair(b, cur) {
                    None => {
                        proof {
                            assert(dec_pairs(b@.skip(cur0 as int), rem) is None);
                        }
                        return None;
                    },
                    Some(pp) => {
                        let ghost pview = (pp.0.0@, pp.0.1@);
                        acc.push(pp.0);
                        cur = pp.1;
                        i = i + 1;
                        proof {
                            assert(pairs_view(acc@) =~= pv0.push(pview));
                            match dec_pairs(b@.skip(cur as int), (n - i) as nat) {
                                Some(tr) => {
                                    assert(dec_pairs(b@.skip(cur0 as int), rem) == Some(
                                        (seq![pview] + tr.0, tr.1),
                                    ));
                                    assert(pv0 + (seq![pview] + tr.0) =~= pairs_view(acc@) + tr.0);
                                },
                                None => {
                                    assert(dec_pairs(b@.skip(cur0 as int), rem) is None);
                                },
                            }
                        }
                    },
                }
            }
            proof {
                assert(dec_pairs(b@.skip(cur as int), (n - i) as nat) == Some(
                    (Seq::<(Seq<char>, ServiceRecordV)>::empty(), b@.skip(cur as int)),
                ));
                assert(pairs_view(acc@) + Seq::<(Seq<char>, ServiceRecordV)>::empty() =~= pairs_view(
                    acc@,
                ));
            }
            if cur == b.len() {
                proof {
                    assert(b@.skip(cur as int).len() == 0);
                }
                Some(acc)
            } else {
                proof {
                    assert(b@.skip(cur as int).len() > 0);
                }
                None
            }
        },
    }
}

} // verus!

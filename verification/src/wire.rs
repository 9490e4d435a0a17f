use vstd::prelude::*;

use crate::merkle_tree::views_of;

verus! {

// --- little-endian views of fixed-width integers ---

/// The two little-endian bytes of a 16-bit integer.
pub open spec fn u16_le(x: u16) -> Seq<u8> {
    seq![(x & 0xff) as u8, ((x >> 8) & 0xff) as u8]
}

/// The four little-endian bytes of a 32-bit integer.
pub open spec fn u32_le(x: u32) -> Seq<u8> {
    seq![
        (x & 0xff) as u8,
        ((x >> 8) & 0xff) as u8,
        ((x >> 16) & 0xff) as u8,
        ((x >> 24) & 0xff) as u8,
    ]
}

/// The eight little-endian bytes of a 64-bit integer.
pub open spec fn u64_le(x: u64) -> Seq<u8> {
    seq![
        (x & 0xff) as u8,
        ((x >> 8) & 0xff) as u8,
        ((x >> 16) & 0xff) as u8,
        ((x >> 24) & 0xff) as u8,
        ((x >> 32) & 0xff) as u8,
        ((x >> 40) & 0xff) as u8,
        ((x >> 48) & 0xff) as u8,
        ((x >> 56) & 0xff) as u8,
    ]
}

/// The 16-bit integer read from two little-endian bytes.
pub open spec fn u16_from_le(b0: u8, b1: u8) -> u16 {
    (b0 as u16) | ((b1 as u16) << 8)
}

/// The 32-bit integer read from four little-endian bytes.
pub open spec fn u32_from_le(b0: u8, b1: u8, b2: u8, b3: u8) -> u32 {
    (b0 as u32) | ((b1 as u32) << 8) | ((b2 as u32) << 16) | ((b3 as u32) << 24)
}

/// The 64-bit integer read from eight little-endian bytes.
pub open spec fn u64_from_le(b0: u8, b1: u8, b2: u8, b3: u8, b4: u8, b5: u8, b6: u8, b7: u8) -> u64 {
    (b0 as u64) | ((b1 as u64) << 8) | ((b2 as u64) << 16) | ((b3 as u64) << 24) | ((b4 as u64)
        << 32) | ((b5 as u64) << 40) | ((b6 as u64) << 48) | ((b7 as u64) << 56)
}

/// Reading back the little-endian bytes of a 16-bit integer returns it.
pub proof fn lemma_u16_le_roundtrip(x: u16)
    ensures
        u16_from_le(u16_le(x)[0], u16_le(x)[1]) == x,
{
    assert(((x & 0xff) as u8 as u16) | ((((x >> 8) & 0xff) as u8 as u16) << 8) == x)
        by (bit_vector);
}

/// Reading back the little-endian bytes of a 32-bit integer returns it.
pub proof fn lemma_u32_le_roundtrip(x: u32)
    ensures
        u32_from_le(u32_le(x)[0], u32_le(x)[1], u32_le(x)[2], u32_le(x)[3]) == x,
{
    assert(((x & 0xff) as u8 as u32) | ((((x >> 8) & 0xff) as u8 as u32) << 8) | ((((x >> 16)
        & 0xff) as u8 as u32) << 16) | ((((x >> 24) & 0xff) as u8 as u32) << 24) == x)
        by (bit_vector);
}

/// Reading back the little-endian bytes of a 64-bit integer returns it.
pub proof fn lemma_u64_le_roundtrip(x: u64)
    ensures
        u64_from_le(
            u64_le(x)[0],
            u64_le(x)[1],
            u64_le(x)[2],
            u64_le(x)[3],
            u64_le(x)[4],
            u64_le(x)[5],
            u64_le(x)[6],
            u64_le(x)[7],
        ) == x,
{
    assert(((x & 0xff) as u8 as u64) | ((((x >> 8) & 0xff) as u8 as u64) << 8) | ((((x >> 16)
        & 0xff) as u8 as u64) << 16) | ((((x >> 24) & 0xff) as u8 as u64) << 24) | ((((x >> 32)
        & 0xff) as u8 as u64) << 32) | ((((x >> 40) & 0xff) as u8 as u64) << 40) | ((((x >> 48)
        & 0xff) as u8 as u64) << 48) | ((((x >> 56) & 0xff) as u8 as u64) << 56) == x)
        by (bit_vector);
}

// --- the variable-length integer encoding ---

/// The canonical variable-length encoding of an unsigned 64-bit integer:
/// values up to 250 as a single byte; larger values as a width marker (251
/// for 16 bits, 252 for 32, 253 for 64) followed by that many little-endian
/// bytes of the smallest width that holds the value.
pub open spec fn varint(n: u64) -> Seq<u8> {
    if n <= 250 {
        seq![n as u8]
    } else if n <= 0xFFFF {
        seq![251u8] + u16_le(n as u16)
    } else if n <= 0xFFFF_FFFF {
        seq![252u8] + u32_le(n as u32)
    } else {
        seq![253u8] + u64_le(n)
    }
}

/// Reads one variable-length integer at `pos`: the value and the position
/// just past it, or nothing when the input ends early or the marker byte is
/// not one this encoding produces. Oversized encodings of small values are
/// accepted, as the reference decoder accepts them.
pub open spec fn parse_varint(s: Seq<u8>, pos: int) -> Option<(u64, int)> {
    if !(0 <= pos < s.len()) {
        None
    } else {
        let b = s[pos];
        if b <= 250 {
            Some((b as u64, pos + 1))
        } else if b == 251 {
            if pos + 3 <= s.len() {
                Some((u16_from_le(s[pos + 1], s[pos + 2]) as u64, pos + 3))
            } else {
                None
            }
        } else if b == 252 {
            if pos + 5 <= s.len() {
                Some((u32_from_le(s[pos + 1], s[pos + 2], s[pos + 3], s[pos + 4]) as u64, pos + 5))
            } else {
                None
            }
        } else if b == 253 {
            if pos + 9 <= s.len() {
                Some(
                    (
                        u64_from_le(
                            s[pos + 1],
                            s[pos + 2],
                            s[pos + 3],
                            s[pos + 4],
                            s[pos + 5],
                            s[pos + 6],
                            s[pos + 7],
                            s[pos + 8],
                        ),
                        pos + 9,
                    ),
                )
            } else {
                None
            }
        } else {
            None
        }
    }
}

/// Wherever the encoding of `n` sits whole inside `s`, parsing at its start
/// returns `n` and consumes exactly its bytes.
pub proof fn lemma_parse_varint_of_encode(s: Seq<u8>, pos: int, n: u64)
    requires
        0 <= pos,
        pos + varint(n).len() <= s.len(),
        s.subrange(pos, pos + varint(n).len() as int) == varint(n),
    ensures
        parse_varint(s, pos) == Some((n, pos + varint(n).len())),
{
    let enc = varint(n);
    let sub = s.subrange(pos, pos + enc.len() as int);
    assert forall|k: int| 0 <= k < enc.len() implies s[pos + k] == enc[k] by {
        assert(sub[k] == s[pos + k]);
        assert(sub[k] == enc[k]);
    }
    if n <= 250 {
        assert(s[pos + 0] == enc[0]);
        assert(s[pos] == n as u8);
        assert(n as u8 as u64 == n);
    } else if n <= 0xFFFF {
        let x = n as u16;
        assert(enc == seq![251u8] + u16_le(x));
        assert(enc.len() == 3);
        assert(enc[0] == 251u8 && enc[1] == u16_le(x)[0] && enc[2] == u16_le(x)[1]);
        assert(s[pos + 0] == enc[0]);
        assert(s[pos] == 251u8);
        assert(s[pos + 1] == u16_le(x)[0]);
        assert(s[pos + 2] == u16_le(x)[1]);
        lemma_u16_le_roundtrip(x);
        assert(x as u64 == n);
    } else if n <= 0xFFFF_FFFF {
        let x = n as u32;
        assert(enc == seq![252u8] + u32_le(x));
        assert(enc.len() == 5);
        assert(enc[0] == 252u8 && enc[1] == u32_le(x)[0] && enc[2] == u32_le(x)[1] && enc[3]
            == u32_le(x)[2] && enc[4] == u32_le(x)[3]);
        assert(s[pos + 0] == enc[0]);
        assert(s[pos] == 252u8);
        assert(s[pos + 1] == u32_le(x)[0]);
        assert(s[pos + 2] == u32_le(x)[1]);
        assert(s[pos + 3] == u32_le(x)[2]);
        assert(s[pos + 4] == u32_le(x)[3]);
        lemma_u32_le_roundtrip(x);
        assert(x as u64 == n);
    } else {
        assert(enc == seq![253u8] + u64_le(n));
        assert(enc.len() == 9);
        assert(enc[0] == 253u8 && enc[1] == u64_le(n)[0] && enc[2] == u64_le(n)[1] && enc[3]
            == u64_le(n)[2] && enc[4] == u64_le(n)[3] && enc[5] == u64_le(n)[4] && enc[6]
            == u64_le(n)[5] && enc[7] == u64_le(n)[6] && enc[8] == u64_le(n)[7]);
        assert(s[pos + 0] == enc[0]);
        assert(s[pos] == 253u8);
        assert(s[pos + 1] == u64_le(n)[0]);
        assert(s[pos + 2] == u64_le(n)[1]);
        assert(s[pos + 3] == u64_le(n)[2]);
        assert(s[pos + 4] == u64_le(n)[3]);
        assert(s[pos + 5] == u64_le(n)[4]);
        assert(s[pos + 6] == u64_le(n)[5]);
        assert(s[pos + 7] == u64_le(n)[6]);
        assert(s[pos + 8] == u64_le(n)[7]);
        lemma_u64_le_roundtrip(n);
    }
}

/// Appends the variable-length encoding of `n`.
pub(crate) fn write_varint(out: &mut Vec<u8>, n: u64)
    ensures
        final(out)@ == old(out)@ + varint(n),
{
    if n <= 250 {
        out.push(n as u8);
        proof {
            assert(out@ =~= old(out)@ + varint(n));
        }
    } else if n <= 0xFFFF {
        let x = n as u16;
        out.push(251u8);
        out.push((x & 0xff) as u8);
        out.push(((x >> 8) & 0xff) as u8);
        proof {
            assert(out@ =~= old(out)@ + varint(n));
        }
    } else if n <= 0xFFFF_FFFF {
        let x = n as u32;
        out.push(252u8);
        out.push((x & 0xff) as u8);
        out.push(((x >> 8) & 0xff) as u8);
        out.push(((x >> 16) & 0xff) as u8);
        out.push(((x >> 24) & 0xff) as u8);
        proof {
            assert(out@ =~= old(out)@ + varint(n));
        }
    } else {
        out.push(253u8);
        out.push((n & 0xff) as u8);
        out.push(((n >> 8) & 0xff) as u8);
        out.push(((n >> 16) & 0xff) as u8);
        out.push(((n >> 24) & 0xff) as u8);
        out.push(((n >> 32) & 0xff) as u8);
        out.push(((n >> 40) & 0xff) as u8);
        out.push(((n >> 48) & 0xff) as u8);
        out.push(((n >> 56) & 0xff) as u8);
        proof {
            assert(out@ =~= old(out)@ + varint(n));
        }
    }
}

/// Reads one variable-length integer, exactly as `parse_varint` describes.
pub(crate) fn read_varint(s: &Vec<u8>, pos: usize) -> (r: Option<(u64, usize)>)
    ensures
        match r {
            Some(p) => {
                &&& parse_varint(s@, pos as int) == Some((p.0, p.1 as int))
                &&& pos < p.1 <= s.len()
            },
            None => parse_varint(s@, pos as int) is None,
        },
{
    if pos >= s.len() {
        return None;
    }
    let b = s[pos];
    if b <= 250 {
        Some((b as u64, pos + 1))
    } else if b == 251 {
        if s.len() - pos >= 3 {
            let v = (s[pos + 1] as u16) | ((s[pos + 2] as u16) << 8);
            Some((v as u64, pos + 3))
        } else {
            None
        }
    } else if b == 252 {
        if s.len() - pos >= 5 {
            let v = (s[pos + 1] as u32) | ((s[pos + 2] as u32) << 8) | ((s[pos + 3] as u32) << 16)
                | ((s[pos + 4] as u32) << 24);
            Some((v as u64, pos + 5))
        } else {
            None
        }
    } else if b == 253 {
        if s.len() - pos >= 9 {
            let v = (s[pos + 1] as u64) | ((s[pos + 2] as u64) << 8) | ((s[pos + 3] as u64) << 16)
                | ((s[pos + 4] as u64) << 24) | ((s[pos + 5] as u64) << 32) | ((s[pos + 6] as u64)
                << 40) | ((s[pos + 7] as u64) << 48) | ((s[pos + 8] as u64) << 56);
            Some((v, pos + 9))
        } else {
            None
        }
    } else {
        None
    }
}

/// Where `s` holds `a` at `pos` and `a` holds `part` at `off`, `s` holds
/// `part` at `pos + off`.
pub proof fn lemma_contains_at(s: Seq<u8>, pos: int, a: Seq<u8>, off: int, part: Seq<u8>)
    requires
        0 <= pos,
        pos + a.len() <= s.len(),
        s.subrange(pos, pos + a.len() as int) == a,
        0 <= off,
        off + part.len() <= a.len(),
        a.subrange(off, off + part.len() as int) == part,
    ensures
        s.subrange(pos + off, pos + off + part.len() as int) == part,
{
    let sub = s.subrange(pos, pos + a.len() as int);
    let inner = a.subrange(off, off + part.len() as int);
    assert forall|k: int| 0 <= k < part.len() implies s.subrange(
        pos + off,
        pos + off + part.len() as int,
    )[k] == part[k] by {
        assert(s.subrange(pos + off, pos + off + part.len() as int)[k] == s[pos + off + k]);
        assert(sub[off + k] == s[pos + off + k]);
        assert(sub[off + k] == a[off + k]);
        assert(inner[k] == a[off + k]);
        assert(inner[k] == part[k]);
    }
    assert(s.subrange(pos + off, pos + off + part.len() as int) =~= part);
}

/// Appends the eight little-endian bytes of a 64-bit integer.
pub(crate) fn write_u64_le(out: &mut Vec<u8>, x: u64)
    ensures
        final(out)@ == old(out)@ + u64_le(x),
{
    out.push((x & 0xff) as u8);
    out.push(((x >> 8) & 0xff) as u8);
    out.push(((x >> 16) & 0xff) as u8);
    out.push(((x >> 24) & 0xff) as u8);
    out.push(((x >> 32) & 0xff) as u8);
    out.push(((x >> 40) & 0xff) as u8);
    out.push(((x >> 48) & 0xff) as u8);
    out.push(((x >> 56) & 0xff) as u8);
    proof {
        assert(out@ =~= old(out)@ + u64_le(x));
    }
}

// --- raw byte runs and runs of 32-byte digests ---

/// Appends all of `data`.
pub(crate) fn write_bytes(out: &mut Vec<u8>, data: &Vec<u8>)
    ensures
        final(out)@ == old(out)@ + data@,
{
    out.extend_from_slice(data.as_slice());
    proof {
        assert(out@ =~= old(out)@ + data@);
    }
}

/// Copies the `n` bytes of `s` that start at `pos`, or nothing when fewer
/// remain.
pub(crate) fn read_bytes(s: &Vec<u8>, pos: usize, n: usize) -> (r: Option<Vec<u8>>)
    ensures
        match r {
            Some(v) => {
                &&& pos + n <= s.len()
                &&& v@ == s@.subrange(pos as int, pos as int + n as int)
            },
            None => pos + n > s.len(),
        },
{
    if n > s.len() {
        return None;
    }
    if pos > s.len() - n {
        return None;
    }
    let mut v: Vec<u8> = Vec::new();
    let mut i: usize = 0;
    while i < n
        invariant
            i <= n,
            pos + n <= s.len(),
            v@.len() == i,
            forall|j: int| 0 <= j < i ==> v@[j] == s@[pos + j],
        decreases n - i,
    {
        v.push(s[pos + i]);
        i = i + 1;
    }
    proof {
        assert(v@ =~= s@.subrange(pos as int, pos as int + n as int));
    }
    Some(v)
}

/// The concatenation of a run of byte strings.
pub open spec fn concat_all(hs: Seq<Seq<u8>>) -> Seq<u8>
    decreases hs.len(),
{
    if hs.len() == 0 {
        Seq::<u8>::empty()
    } else {
        hs[0] + concat_all(hs.subrange(1, hs.len() as int))
    }
}

/// Reads `n` consecutive 32-byte digests at `pos`, or nothing when the input
/// ends early.
pub open spec fn parse_hashes(s: Seq<u8>, pos: int, n: nat) -> Option<(Seq<Seq<u8>>, int)>
    decreases n,
{
    if n == 0 {
        Some((Seq::<Seq<u8>>::empty(), pos))
    } else if 0 <= pos && pos + 32 <= s.len() {
        match parse_hashes(s, pos + 32, (n - 1) as nat) {
            Some(p) => Some((seq![s.subrange(pos, pos + 32)] + p.0, p.1)),
            None => None,
        }
    } else {
        None
    }
}

/// A run of `n` digests of 32 bytes each concatenates to `32 * n` bytes.
pub proof fn lemma_concat_hashes_len(hs: Seq<Seq<u8>>)
    requires
        forall|i: int| 0 <= i < hs.len() ==> (#[trigger] hs[i]).len() == 32,
    ensures
        concat_all(hs).len() == 32 * hs.len(),
    decreases hs.len(),
{
    if hs.len() > 0 {
        lemma_concat_hashes_len(hs.subrange(1, hs.len() as int));
    }
}

/// Wherever a run of 32-byte digests sits whole inside `s`, parsing its
/// count at its start returns exactly those digests.
pub proof fn lemma_parse_hashes_of_encode(s: Seq<u8>, pos: int, hs: Seq<Seq<u8>>)
    requires
        forall|i: int| 0 <= i < hs.len() ==> (#[trigger] hs[i]).len() == 32,
        0 <= pos,
        pos + concat_all(hs).len() <= s.len(),
        s.subrange(pos, pos + concat_all(hs).len() as int) == concat_all(hs),
    ensures
        parse_hashes(s, pos, hs.len()) == Some((hs, pos + concat_all(hs).len())),
    decreases hs.len(),
{
    lemma_concat_hashes_len(hs);
    if hs.len() == 0 {
        assert(hs =~= Seq::<Seq<u8>>::empty());
    } else {
        let rest = hs.subrange(1, hs.len() as int);
        lemma_concat_hashes_len(rest);
        let all = concat_all(hs);
        let sub = s.subrange(pos, pos + all.len() as int);
        assert(hs[0].len() == 32);
        assert(all == hs[0] + concat_all(rest));
        assert(all.len() == 32 + concat_all(rest).len());
        assert forall|k: int| 0 <= k < all.len() implies s[pos + k] == all[k] by {
            assert(sub[k] == s[pos + k]);
            assert(sub[k] == all[k]);
        }
        assert forall|k: int| 0 <= k < 32 implies s.subrange(pos, pos + 32)[k] == hs[0][k] by {
            assert(s[pos + k] == all[k]);
            assert(all[k] == hs[0][k]);
        }
        assert(s.subrange(pos, pos + 32) =~= hs[0]);
        let restlen = concat_all(rest).len() as int;
        assert forall|k: int| 0 <= k < restlen implies s.subrange(pos + 32, pos + 32 + restlen)[k]
            == concat_all(rest)[k] by {
            assert(s[pos + 32 + k] == all[32 + k]);
            assert(all[32 + k] == concat_all(rest)[k]);
        }
        assert(s.subrange(pos + 32, pos + 32 + restlen) =~= concat_all(rest));
        lemma_parse_hashes_of_encode(s, pos + 32, rest);
        assert(seq![s.subrange(pos, pos + 32)] + rest =~= hs);
    }
}

/// Appends a run of 32-byte digests.
pub(crate) fn write_hashes(out: &mut Vec<u8>, hs: &Vec<Vec<u8>>)
    requires
        forall|i: int| 0 <= i < hs.len() ==> (#[trigger] hs[i]@).len() == 32,
    ensures
        final(out)@ == old(out)@ + concat_all(views_of(hs@)),
{
    let mut i: usize = 0;
    while i < hs.len()
        invariant
            i <= hs.len(),
            forall|k: int| 0 <= k < hs.len() ==> (#[trigger] hs[k]@).len() == 32,
            out@ == old(out)@ + concat_all(views_of(hs@).subrange(0, i as int)),
        decreases hs.len() - i,
    {
        let ghost before = views_of(hs@).subrange(0, i as int);
        write_bytes(out, &hs[i]);
        proof {
            let after = views_of(hs@).subrange(0, i as int + 1);
            lemma_concat_snoc(before, hs@[i as int]@);
            assert(after =~= before.push(hs@[i as int]@));
            assert(out@ =~= old(out)@ + concat_all(after));
        }
        i = i + 1;
    }
    proof {
        assert(views_of(hs@).subrange(0, hs.len() as int) =~= views_of(hs@));
    }
}

/// Concatenating one more byte string appends its bytes at the end.
pub proof fn lemma_concat_snoc(hs: Seq<Seq<u8>>, h: Seq<u8>)
    ensures
        concat_all(hs.push(h)) == concat_all(hs) + h,
    decreases hs.len(),
{
    let pushed = hs.push(h);
    if hs.len() == 0 {
        assert(pushed[0] == h);
        assert(pushed.subrange(1, 1) =~= Seq::<Seq<u8>>::empty());
        assert(concat_all(pushed.subrange(1, 1)) =~= Seq::<u8>::empty());
        assert(concat_all(pushed) == pushed[0] + concat_all(pushed.subrange(1, 1)));
        assert(concat_all(pushed) =~= h);
        assert(concat_all(hs) + h =~= h);
    } else {
        let tail = hs.subrange(1, hs.len() as int);
        assert(pushed.subrange(1, pushed.len() as int) =~= tail.push(h));
        lemma_concat_snoc(tail, h);
        assert(pushed[0] == hs[0]);
        assert(concat_all(pushed) == pushed[0] + concat_all(pushed.subrange(
            1,
            pushed.len() as int,
        )));
        assert(concat_all(pushed) =~= hs[0] + (concat_all(tail) + h));
        assert(concat_all(hs) == hs[0] + concat_all(tail));
        assert(hs[0] + (concat_all(tail) + h) =~= (hs[0] + concat_all(tail)) + h);
        assert(concat_all(pushed) =~= concat_all(hs) + h);
    }
}

/// Reads `n` consecutive 32-byte digests, exactly as `parse_hashes`
/// describes.
pub(crate) fn read_hashes(s: &Vec<u8>, pos: usize, n: u64) -> (r: Option<(Vec<Vec<u8>>, usize)>)
    ensures
        match r {
            Some(p) => {
                &&& parse_hashes(s@, pos as int, n as nat) == Some((views_of(p.0@), p.1 as int))
                &&& p.0.len() == n
                &&& forall|i: int| 0 <= i < p.0.len() ==> (#[trigger] p.0[i]@).len() == 32
                &&& pos <= p.1
                &&& n > 0 ==> p.1 <= s.len()
            },
            None => parse_hashes(s@, pos as int, n as nat) is None,
        },
{
    let mut out: Vec<Vec<u8>> = Vec::new();
    let mut p: usize = pos;
    let mut k: u64 = 0;
    while k < n
        invariant
            k <= n,
            pos <= p,
            k > 0 ==> p <= s.len(),
            out.len() == k,
            forall|i: int| 0 <= i < out.len() ==> (#[trigger] out[i]@).len() == 32,
            parse_hashes(s@, pos as int, n as nat) == match parse_hashes(
                s@,
                p as int,
                (n - k) as nat,
            ) {
                Some(q) => Some::<(Seq<Seq<u8>>, int)>((views_of(out@) + q.0, q.1)),
                None => None::<(Seq<Seq<u8>>, int)>,
            },
        decreases n - k,
    {
        let ghost oout = views_of(out@);
        let ghost op = p as int;
        match read_bytes(s, p, 32) {
            Some(h) => {
                out.push(h);
                p = p + 32;
                k = k + 1;
                proof {
                    let tail = parse_hashes(s@, p as int, (n - k) as nat);
                    assert(parse_hashes(s@, op, (n - k + 1) as nat) == match tail {
                        Some(q) => Some::<(Seq<Seq<u8>>, int)>(
                            (seq![s@.subrange(op, op + 32)] + q.0, q.1),
                        ),
                        None => None::<(Seq<Seq<u8>>, int)>,
                    });
                    if tail is Some {
                        let q = tail.unwrap();
                        assert(views_of(out@) =~= oout.push(s@.subrange(op, op + 32)));
                        assert(views_of(out@) + q.0 =~= oout + (seq![s@.subrange(op, op + 32)]
                            + q.0));
                    }
                }
            },
            None => {
                proof {
                    assert(parse_hashes(s@, p as int, (n - k) as nat) is None);
                }
                return None;
            },
        }
    }
    proof {
        assert(parse_hashes(s@, p as int, 0) == Some((Seq::<Seq<u8>>::empty(), p as int)));
        assert(views_of(out@) + Seq::<Seq<u8>>::empty() =~= views_of(out@));
    }
    Some((out, p))
}

} // verus!
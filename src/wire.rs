//! The wire format: little-endian integers, strings prefixed with a 16-bit
//! byte length, byte blobs prefixed with a 32-bit length, qids, and arrays
//! prefixed with a 16-bit count. A message is an ordered list of such fields.
use vstd::prelude::*;
use vstd::slice::slice_subrange;
use vstd::utf8::{decode_utf8, encode_utf8, valid_utf8, encode_utf8_decode_utf8, encode_utf8_valid_utf8};
use crate::protocol::Qid;

verus! {

/// `n` little-endian bytes of `v`.
pub open spec fn le(v: nat, n: nat) -> Seq<u8>
    decreases n,
{
    if n == 0 {
        Seq::empty()
    } else {
        seq![(v % 256) as u8] + le(v / 256, (n - 1) as nat)
    }
}

/// The number that little-endian bytes `s` hold.
pub open spec fn le_val(s: Seq<u8>) -> nat
    decreases s.len(),
{
    if s.len() == 0 {
        0
    } else {
        s[0] as nat + 256 * le_val(s.drop_first())
    }
}

/// 256 to the power `n`.
pub open spec fn pow256(n: nat) -> nat
    decreases n,
{
    if n == 0 {
        1
    } else {
        256 * pow256((n - 1) as nat)
    }
}

proof fn lemma_le_len(v: nat, n: nat)
    ensures
        le(v, n).len() == n,
    decreases n,
{
    if n > 0 {
        lemma_le_len(v / 256, (n - 1) as nat);
    }
}

proof fn lemma_le_val_bound(s: Seq<u8>)
    ensures
        le_val(s) < pow256(s.len()),
    decreases s.len(),
{
    if s.len() > 0 {
        lemma_le_val_bound(s.drop_first());
    }
}

/// Reading back `n` little-endian bytes of a value below `256^n` gives the value.
pub proof fn lemma_le_round_trip(v: nat, n: nat)
    requires
        v < pow256(n),
    ensures
        le_val(le(v, n)) == v,
        le(v, n).len() == n,
    decreases n,
{
    lemma_le_len(v, n);
    if n > 0 {
        assert(v / 256 < pow256((n - 1) as nat)) by (nonlinear_arith)
            requires
                v < 256 * pow256((n - 1) as nat),
        ;
        lemma_le_round_trip(v / 256, (n - 1) as nat);
        assert(le(v, n).drop_first() =~= le(v / 256, (n - 1) as nat));
    }
}

/// Writes the low `n` bytes of `v`, least significant first.
fn put_le(out: &mut Vec<u8>, v: u64, n: usize)
    requires
        n <= 8,
    ensures
        final(out)@ == old(out)@ + le(v as nat, n as nat),
{
    let ghost start = out@;
    let mut cur = v;
    let mut i: usize = 0;
    while i < n
        invariant
            i <= n,
            out@ + le(cur as nat, (n - i) as nat) == start + le(v as nat, n as nat),
        decreases n - i,
    {
        let ghost before = out@;
        out.push((cur % 256) as u8);
        proof {
            assert(le(cur as nat, (n - i) as nat) =~= seq![(cur % 256) as u8] + le(
                (cur / 256) as nat,
                (n - i - 1) as nat,
            ));
            assert(out@ + le((cur / 256) as nat, (n - i - 1) as nat) =~= before + le(
                cur as nat,
                (n - i) as nat,
            ));
        }
        cur = cur / 256;
        i = i + 1;
    }
    assert(le(cur as nat, 0) =~= Seq::<u8>::empty());
    assert(out@ =~= start + le(v as nat, n as nat));
}

/// Reads `n` little-endian bytes at `pos`.
fn get_le(buf: &[u8], pos: usize, n: usize) -> (r: u64)
    requires
        n <= 8,
        pos + n <= buf@.len(),
    ensures
        r as nat == le_val(buf@.subrange(pos as int, pos + n)),
{
    let len = buf.len();
    let mut v: u64 = 0;
    let mut i: usize = n;
    proof {
        assert(buf@.subrange(pos + i, pos + n) =~= Seq::<u8>::empty());
        reveal_with_fuel(pow256, 9);
    }
    while i > 0
        invariant
            i <= n,
            n <= 8,
            len == buf@.len(),
            pos + n <= buf@.len(),
            v as nat == le_val(buf@.subrange(pos + i, pos + n)),
            pow256((n - i) as nat) * pow256(i as nat) == pow256(n as nat),
            pow256(8) == 0x1_0000_0000_0000_0000,
        decreases i,
    {
        let ghost s = buf@.subrange(pos + i - 1, pos + n);
        proof {
            assert(s.drop_first() =~= buf@.subrange(pos + i, pos + n));
            lemma_le_val_bound(s);
            assert(pow256(s.len()) <= pow256(8)) by {
                lemma_pow_mono(s.len(), 8);
            }
        }
        v = v * 256 + buf[pos + i - 1] as u64;
        i = i - 1;
        proof {
            assert(pow256((n - i) as nat) * pow256(i as nat) == pow256(n as nat)) by {
                lemma_pow_split(n as nat, i as nat);
            }
        }
    }
    v
}

proof fn lemma_pow_mono(a: nat, b: nat)
    requires
        a <= b,
    ensures
        pow256(a) <= pow256(b),
    decreases b,
{
    if a < b {
        lemma_pow_mono(a, (b - 1) as nat);
    }
}

proof fn lemma_pow_split(n: nat, i: nat)
    requires
        i <= n,
    ensures
        pow256((n - i) as nat) * pow256(i) == pow256(n),
    decreases i,
{
    if i > 0 {
        let j = (i - 1) as nat;
        let a = (n - i) as nat;
        lemma_pow_split(n, j);
        assert((n - j) as nat == a + 1);
        assert(pow256(a + 1) == 256 * pow256(a));
        assert(pow256(i) == 256 * pow256(j));
        assert(pow256(a) * pow256(i) == pow256(a + 1) * pow256(j)) by (nonlinear_arith)
            requires
                pow256(i) == 256 * pow256(j),
                pow256(a + 1) == 256 * pow256(a),
        ;
        assert(pow256((n - j) as nat) * pow256(j) == pow256(n));
        assert(pow256(a) * pow256(i) == pow256(n));
    } else {
        assert(pow256(0) == 1);
        assert((n - i) as nat == n);
        assert(pow256(n) * 1 == pow256(n));
    }
}

/// Relies on `String::from_utf8`: the bytes become a string exactly when
/// they are valid UTF-8, and the string holds the characters they encode.
#[verifier::external_body]
fn utf8_string(bytes: Vec<u8>) -> (r: Option<String>)
    ensures
        r.is_some() == valid_utf8(bytes@),
        r matches Some(s) ==> s@ == decode_utf8(bytes@),
{
    String::from_utf8(bytes).ok()
}

/// The kinds of field a message is made of.
#[derive(Clone, Copy, PartialEq, Eq, Debug, Structural)]
pub enum FieldKind {
    U8,
    U16,
    U32,
    U64,
    Str,
    Data,
    Qid,
    Strs,
    Qids,
}

/// One field of a message.
#[derive(Clone, Debug, PartialEq, Eq)]
pub enum Field {
    U8(u8),
    U16(u16),
    U32(u32),
    U64(u64),
    /// A string, sent as its UTF-8 bytes after their 16-bit length.
    Str(String),
    /// A byte blob, sent after its 32-bit length.
    Data(Vec<u8>),
    Qid(Qid),
    /// An array of strings, sent after its 16-bit count.
    Strs(Vec<String>),
    /// An array of qids, sent after its 16-bit count.
    Qids(Vec<Qid>),
}

/// The value of a field.
pub enum FieldV {
    U8(u8),
    U16(u16),
    U32(u32),
    U64(u64),
    Str(Seq<char>),
    Data(Seq<u8>),
    Qid(Qid),
    Strs(Seq<Seq<char>>),
    Qids(Seq<Qid>),
}

/// The value of a field.
pub open spec fn field_view(f: Field) -> FieldV {
    match f {
        Field::U8(v) => FieldV::U8(v),
        Field::U16(v) => FieldV::U16(v),
        Field::U32(v) => FieldV::U32(v),
        Field::U64(v) => FieldV::U64(v),
        Field::Str(s) => FieldV::Str(s@),
        Field::Data(d) => FieldV::Data(d@),
        Field::Qid(q) => FieldV::Qid(q),
        Field::Strs(v) => FieldV::Strs(v@.map_values(|s: String| s@)),
        Field::Qids(v) => FieldV::Qids(v@),
    }
}

/// The values of a list of fields.
pub open spec fn fields_view(fs: Seq<Field>) -> Seq<FieldV> {
    fs.map_values(|f: Field| field_view(f))
}

/// The kind of a field value.
pub open spec fn kind_of(f: FieldV) -> FieldKind {
    match f {
        FieldV::U8(_) => FieldKind::U8,
        FieldV::U16(_) => FieldKind::U16,
        FieldV::U32(_) => FieldKind::U32,
        FieldV::U64(_) => FieldKind::U64,
        FieldV::Str(_) => FieldKind::Str,
        FieldV::Data(_) => FieldKind::Data,
        FieldV::Qid(_) => FieldKind::Qid,
        FieldV::Strs(_) => FieldKind::Strs,
        FieldV::Qids(_) => FieldKind::Qids,
    }
}

/// The kinds of a list of field values.
pub open spec fn kinds_of(fs: Seq<FieldV>) -> Seq<FieldKind> {
    fs.map_values(|f: FieldV| kind_of(f))
}

/// The wire form of a string.
pub open spec fn enc_str(s: Seq<char>) -> Seq<u8> {
    le(encode_utf8(s).len(), 2) + encode_utf8(s)
}

/// The wire form of a qid.
pub open spec fn enc_qid(q: Qid) -> Seq<u8> {
    le(q.ty as nat, 1) + le(q.version as nat, 4) + le(q.path as nat, 8)
}

/// The wire forms of strings, one after the other.
pub open spec fn enc_strs(ss: Seq<Seq<char>>) -> Seq<u8>
    decreases ss.len(),
{
    if ss.len() == 0 {
        Seq::empty()
    } else {
        enc_strs(ss.drop_last()) + enc_str(ss.last())
    }
}

/// The wire forms of qids, one after the other.
pub open spec fn enc_qids(qs: Seq<Qid>) -> Seq<u8>
    decreases qs.len(),
{
    if qs.len() == 0 {
        Seq::empty()
    } else {
        enc_qids(qs.drop_last()) + enc_qid(qs.last())
    }
}

/// The wire form of a field.
pub open spec fn enc_field(f: FieldV) -> Seq<u8> {
    match f {
        FieldV::U8(v) => le(v as nat, 1),
        FieldV::U16(v) => le(v as nat, 2),
        FieldV::U32(v) => le(v as nat, 4),
        FieldV::U64(v) => le(v as nat, 8),
        FieldV::Str(s) => enc_str(s),
        FieldV::Data(d) => le(d.len(), 4) + d,
        FieldV::Qid(q) => enc_qid(q),
        FieldV::Strs(ss) => le(ss.len(), 2) + enc_strs(ss),
        FieldV::Qids(qs) => le(qs.len(), 2) + enc_qids(qs),
    }
}

/// The wire form of a list of fields: each field's, one after the other.
pub open spec fn enc_fields(fs: Seq<FieldV>) -> Seq<u8>
    decreases fs.len(),
{
    if fs.len() == 0 {
        Seq::empty()
    } else {
        enc_fields(fs.drop_last()) + enc_field(fs.last())
    }
}

/// A string that its 16-bit length prefix can describe.
pub open spec fn str_wf(s: Seq<char>) -> bool {
    encode_utf8(s).len() <= 0xffff
}

/// A field that the wire format can carry.
pub open spec fn field_wf(f: FieldV) -> bool {
    match f {
        FieldV::Str(s) => str_wf(s),
        FieldV::Data(d) => d.len() <= 0xffff_ffff,
        FieldV::Strs(ss) => ss.len() <= 0xffff && forall|i: int| 0 <= i < ss.len() ==> str_wf(#[trigger] ss[i]),
        FieldV::Qids(qs) => qs.len() <= 0xffff,
        _ => true,
    }
}

/// A list of fields that the wire format can carry.
pub open spec fn fields_wf(fs: Seq<FieldV>) -> bool {
    forall|i: int| 0 <= i < fs.len() ==> field_wf(#[trigger] fs[i])
}

/// Reads a string from the start of `s`.
pub open spec fn parse_str(s: Seq<u8>) -> Option<(Seq<char>, nat)> {
    if s.len() < 2 {
        None
    } else {
        let n = le_val(s.take(2));
        if s.len() < 2 + n {
            None
        } else {
            let b = s.subrange(2, (2 + n) as int);
            if valid_utf8(b) {
                Some((decode_utf8(b), 2 + n))
            } else {
                None
            }
        }
    }
}

/// Reads a qid from the start of `s`.
pub open spec fn parse_qid(s: Seq<u8>) -> Option<(Qid, nat)> {
    if s.len() < 13 {
        None
    } else {
        Some(
            (
                Qid {
                    ty: le_val(s.take(1)) as u8,
                    version: le_val(s.subrange(1, 5)) as u32,
                    path: le_val(s.subrange(5, 13)) as u64,
                },
                13,
            ),
        )
    }
}

/// Reads `count` strings from the start of `s`.
pub open spec fn parse_strs(s: Seq<u8>, count: nat) -> Option<(Seq<Seq<char>>, nat)>
    decreases count,
{
    if count == 0 {
        Some((Seq::empty(), 0))
    } else {
        match parse_str(s) {
            None => None,
            Some((x, n)) => match parse_strs(s.skip(n as int), (count - 1) as nat) {
                None => None,
                Some((xs, m)) => Some((seq![x] + xs, n + m)),
            },
        }
    }
}

/// Reads `count` qids from the start of `s`.
pub open spec fn parse_qids(s: Seq<u8>, count: nat) -> Option<(Seq<Qid>, nat)>
    decreases count,
{
    if count == 0 {
        Some((Seq::empty(), 0))
    } else {
        match parse_qid(s) {
            None => None,
            Some((x, n)) => match parse_qids(s.skip(n as int), (count - 1) as nat) {
                None => None,
                Some((xs, m)) => Some((seq![x] + xs, n + m)),
            },
        }
    }
}

/// Reads a field of kind `k` from the start of `s`: the value and the
/// number of bytes it took, or `None` when `s` does not hold one.
pub open spec fn parse_field(k: FieldKind, s: Seq<u8>) -> Option<(FieldV, nat)> {
    match k {
        FieldKind::U8 => if s.len() < 1 {
            None
        } else {
            Some((FieldV::U8(le_val(s.take(1)) as u8), 1))
        },
        FieldKind::U16 => if s.len() < 2 {
            None
        } else {
            Some((FieldV::U16(le_val(s.take(2)) as u16), 2))
        },
        FieldKind::U32 => if s.len() < 4 {
            None
        } else {
            Some((FieldV::U32(le_val(s.take(4)) as u32), 4))
        },
        FieldKind::U64 => if s.len() < 8 {
            None
        } else {
            Some((FieldV::U64(le_val(s.take(8)) as u64), 8))
        },
        FieldKind::Str => match parse_str(s) {
            Some((x, n)) => Some((FieldV::Str(x), n)),
            None => None,
        },
        FieldKind::Data => if s.len() < 4 {
            None
        } else {
            let n = le_val(s.take(4));
            if s.len() < 4 + n {
                None
            } else {
                Some((FieldV::Data(s.subrange(4, (4 + n) as int)), 4 + n))
            }
        },
        FieldKind::Qid => match parse_qid(s) {
            Some((q, n)) => Some((FieldV::Qid(q), n)),
            None => None,
        },
        FieldKind::Strs => if s.len() < 2 {
            None
        } else {
            match parse_strs(s.skip(2), le_val(s.take(2))) {
                Some((xs, n)) => Some((FieldV::Strs(xs), 2 + n)),
                None => None,
            }
        },
        FieldKind::Qids => if s.len() < 2 {
            None
        } else {
            match parse_qids(s.skip(2), le_val(s.take(2))) {
                Some((xs, n)) => Some((FieldV::Qids(xs), 2 + n)),
                None => None,
            }
        },
    }
}

/// Reads fields of the kinds `ks`, in order, from the start of `s`.
pub open spec fn parse_fields(ks: Seq<FieldKind>, s: Seq<u8>) -> Option<(Seq<FieldV>, nat)>
    decreases ks.len(),
{
    if ks.len() == 0 {
        Some((Seq::empty(), 0))
    } else {
        match parse_field(ks[0], s) {
            None => None,
            Some((f, n)) => match parse_fields(ks.drop_first(), s.skip(n as int)) {
                None => None,
                Some((fs, m)) => Some((seq![f] + fs, n + m)),
            },
        }
    }
}

proof fn lemma_int(v: nat, n: nat, rest: Seq<u8>)
    requires
        v < pow256(n),
    ensures
        (le(v, n) + rest).len() >= n,
        (le(v, n) + rest).take(n as int) == le(v, n),
        le_val((le(v, n) + rest).take(n as int)) == v,
        (le(v, n) + rest).skip(n as int) == rest,
{
    lemma_le_round_trip(v, n);
    assert((le(v, n) + rest).take(n as int) =~= le(v, n));
    assert((le(v, n) + rest).skip(n as int) =~= rest);
}

proof fn lemma_pow_values()
    ensures
        pow256(1) == 0x100,
        pow256(2) == 0x1_0000,
        pow256(4) == 0x1_0000_0000,
        pow256(8) == 0x1_0000_0000_0000_0000,
{
    reveal_with_fuel(pow256, 9);
}

proof fn lemma_str(s: Seq<char>, rest: Seq<u8>)
    requires
        str_wf(s),
    ensures
        parse_str(enc_str(s) + rest) == Some((s, enc_str(s).len())),
        enc_str(s).len() == 2 + encode_utf8(s).len(),
{
    let b = encode_utf8(s);
    let n = b.len();
    lemma_pow_values();
    lemma_int(n, 2, b + rest);
    let t = enc_str(s) + rest;
    assert(t =~= le(n, 2) + (b + rest));
    assert(t.subrange(2, (2 + n) as int) =~= b);
    encode_utf8_valid_utf8(s);
    encode_utf8_decode_utf8(s);
}

proof fn lemma_qid(q: Qid, rest: Seq<u8>)
    ensures
        parse_qid(enc_qid(q) + rest) == Some((q, 13nat)),
        enc_qid(q).len() == 13,
{
    lemma_pow_values();
    let a = le(q.ty as nat, 1);
    let b = le(q.version as nat, 4);
    let c = le(q.path as nat, 8);
    lemma_le_round_trip(q.ty as nat, 1);
    lemma_le_round_trip(q.version as nat, 4);
    lemma_le_round_trip(q.path as nat, 8);
    let t = enc_qid(q) + rest;
    assert(t.take(1) =~= a);
    assert(t.subrange(1, 5) =~= b);
    assert(t.subrange(5, 13) =~= c);
}

proof fn lemma_strs_front(ss: Seq<Seq<char>>)
    requires
        ss.len() > 0,
    ensures
        enc_strs(ss) == enc_str(ss[0]) + enc_strs(ss.drop_first()),
    decreases ss.len(),
{
    if ss.len() == 1 {
        assert(ss.drop_last() =~= Seq::<Seq<char>>::empty());
        assert(ss.drop_first() =~= Seq::<Seq<char>>::empty());
        assert(enc_strs(ss) =~= enc_str(ss[0]) + enc_strs(ss.drop_first()));
    } else {
        lemma_strs_front(ss.drop_last());
        assert(ss.drop_last().drop_first() =~= ss.drop_first().drop_last());
        assert(ss.drop_last()[0] == ss[0]);
        assert(ss.drop_first().last() == ss.last());
        assert(enc_strs(ss) =~= enc_str(ss[0]) + enc_strs(ss.drop_first()));
    }
}

proof fn lemma_qids_front(qs: Seq<Qid>)
    requires
        qs.len() > 0,
    ensures
        enc_qids(qs) == enc_qid(qs[0]) + enc_qids(qs.drop_first()),
    decreases qs.len(),
{
    if qs.len() == 1 {
        assert(qs.drop_last() =~= Seq::<Qid>::empty());
        assert(qs.drop_first() =~= Seq::<Qid>::empty());
        assert(enc_qids(qs) =~= enc_qid(qs[0]) + enc_qids(qs.drop_first()));
    } else {
        lemma_qids_front(qs.drop_last());
        assert(qs.drop_last().drop_first() =~= qs.drop_first().drop_last());
        assert(qs.drop_last()[0] == qs[0]);
        assert(qs.drop_first().last() == qs.last());
        assert(enc_qids(qs) =~= enc_qid(qs[0]) + enc_qids(qs.drop_first()));
    }
}

proof fn lemma_fields_front(fs: Seq<FieldV>)
    requires
        fs.len() > 0,
    ensures
        enc_fields(fs) == enc_field(fs[0]) + enc_fields(fs.drop_first()),
    decreases fs.len(),
{
    if fs.len() == 1 {
        assert(fs.drop_last() =~= Seq::<FieldV>::empty());
        assert(fs.drop_first() =~= Seq::<FieldV>::empty());
        assert(enc_fields(fs) =~= enc_field(fs[0]) + enc_fields(fs.drop_first()));
    } else {
        lemma_fields_front(fs.drop_last());
        assert(fs.drop_last().drop_first() =~= fs.drop_first().drop_last());
        assert(fs.drop_last()[0] == fs[0]);
        assert(fs.drop_first().last() == fs.last());
        assert(enc_fields(fs) =~= enc_field(fs[0]) + enc_fields(fs.drop_first()));
    }
}

proof fn lemma_strs(ss: Seq<Seq<char>>, rest: Seq<u8>)
    requires
        forall|i: int| 0 <= i < ss.len() ==> str_wf(#[trigger] ss[i]),
    ensures
        parse_strs(enc_strs(ss) + rest, ss.len()) == Some((ss, enc_strs(ss).len())),
    decreases ss.len(),
{
    if ss.len() == 0 {
        assert(ss =~= Seq::<Seq<char>>::empty());
    } else {
        lemma_strs_front(ss);
        let t = enc_strs(ss) + rest;
        let tail = enc_strs(ss.drop_first()) + rest;
        assert(t =~= enc_str(ss[0]) + tail);
        assert(str_wf(ss[0]));
        lemma_str(ss[0], tail);
        assert(t.skip(enc_str(ss[0]).len() as int) =~= tail);
        lemma_strs(ss.drop_first(), rest);
        assert(seq![ss[0]] + ss.drop_first() =~= ss);
    }
}

proof fn lemma_qids(qs: Seq<Qid>, rest: Seq<u8>)
    ensures
        parse_qids(enc_qids(qs) + rest, qs.len()) == Some((qs, enc_qids(qs).len())),
    decreases qs.len(),
{
    if qs.len() == 0 {
        assert(qs =~= Seq::<Qid>::empty());
    } else {
        lemma_qids_front(qs);
        let t = enc_qids(qs) + rest;
        let tail = enc_qids(qs.drop_first()) + rest;
        assert(t =~= enc_qid(qs[0]) + tail);
        lemma_qid(qs[0], tail);
        assert(t.skip(13) =~= tail);
        lemma_qids(qs.drop_first(), rest);
        assert(seq![qs[0]] + qs.drop_first() =~= qs);
    }
}

proof fn lemma_field(f: FieldV, rest: Seq<u8>)
    requires
        field_wf(f),
    ensures
        parse_field(kind_of(f), enc_field(f) + rest) == Some((f, enc_field(f).len())),
{
    lemma_pow_values();
    let t = enc_field(f) + rest;
    match f {
        FieldV::U8(v) => {
            lemma_int(v as nat, 1, rest);
            lemma_le_len(v as nat, 1);
        },
        FieldV::U16(v) => {
            lemma_int(v as nat, 2, rest);
            lemma_le_len(v as nat, 2);
        },
        FieldV::U32(v) => {
            lemma_int(v as nat, 4, rest);
            lemma_le_len(v as nat, 4);
        },
        FieldV::U64(v) => {
            lemma_int(v as nat, 8, rest);
            lemma_le_len(v as nat, 8);
        },
        FieldV::Str(x) => {
            lemma_str(x, rest);
        },
        FieldV::Data(d) => {
            lemma_int(d.len(), 4, d + rest);
            assert(t =~= le(d.len(), 4) + (d + rest));
            assert(t.subrange(4, (4 + d.len()) as int) =~= d);
        },
        FieldV::Qid(q) => {
            lemma_qid(q, rest);
        },
        FieldV::Strs(ss) => {
            lemma_int(ss.len(), 2, enc_strs(ss) + rest);
            assert(t =~= le(ss.len(), 2) + (enc_strs(ss) + rest));
            lemma_strs(ss, rest);
        },
        FieldV::Qids(qs) => {
            lemma_int(qs.len(), 2, enc_qids(qs) + rest);
            assert(t =~= le(qs.len(), 2) + (enc_qids(qs) + rest));
            lemma_qids(qs, rest);
        },
    }
}

/// Decoding what was encoded gives back every field exactly, whatever
/// follows it: for every list of fields that the wire format can carry,
/// empty strings, blobs and arrays included.
pub proof fn lemma_fields_round_trip(fs: Seq<FieldV>, rest: Seq<u8>)
    requires
        fields_wf(fs),
    ensures
        parse_fields(kinds_of(fs), enc_fields(fs) + rest) == Some((fs, enc_fields(fs).len())),
    decreases fs.len(),
{
    if fs.len() == 0 {
        assert(fs =~= Seq::<FieldV>::empty());
    } else {
        lemma_fields_front(fs);
        let t = enc_fields(fs) + rest;
        let tail = enc_fields(fs.drop_first()) + rest;
        assert(t =~= enc_field(fs[0]) + tail);
        assert(field_wf(fs[0]));
        lemma_field(fs[0], tail);
        assert(t.skip(enc_field(fs[0]).len() as int) =~= tail);
        assert(kinds_of(fs)[0] == kind_of(fs[0]));
        assert(kinds_of(fs).drop_first() =~= kinds_of(fs.drop_first()));
        lemma_fields_round_trip(fs.drop_first(), rest);
        assert(seq![fs[0]] + fs.drop_first() =~= fs);
    }
}

fn put_bytes(out: &mut Vec<u8>, b: &[u8])
    ensures
        final(out)@ == old(out)@ + b@,
{
    let ghost start = out@;
    let mut i: usize = 0;
    while i < b.len()
        invariant
            i <= b@.len(),
            out@ == start + b@.take(i as int),
        decreases b@.len() - i,
    {
        out.push(b[i]);
        i = i + 1;
        assert(out@ =~= start + b@.take(i as int));
    }
    assert(b@.take(i as int) =~= b@);
}

fn put_str(out: &mut Vec<u8>, s: &String)
    requires
        str_wf(s@),
    ensures
        final(out)@ == old(out)@ + enc_str(s@),
{
    let b = s.as_str().as_bytes();
    let ghost start = out@;
    put_le(out, b.len() as u64, 2);
    put_bytes(out, b);
    assert(out@ =~= start + enc_str(s@));
}

fn put_qid(out: &mut Vec<u8>, q: &Qid)
    ensures
        final(out)@ == old(out)@ + enc_qid(*q),
{
    let ghost start = out@;
    put_le(out, q.ty as u64, 1);
    put_le(out, q.version as u64, 4);
    put_le(out, q.path, 8);
    assert(out@ =~= start + enc_qid(*q));
}

fn put_field(out: &mut Vec<u8>, f: &Field)
    requires
        field_wf(field_view(*f)),
    ensures
        final(out)@ == old(out)@ + enc_field(field_view(*f)),
{
    let ghost start = out@;
    match f {
        Field::U8(v) => put_le(out, *v as u64, 1),
        Field::U16(v) => put_le(out, *v as u64, 2),
        Field::U32(v) => put_le(out, *v as u64, 4),
        Field::U64(v) => put_le(out, *v, 8),
        Field::Str(x) => put_str(out, x),
        Field::Data(d) => {
            put_le(out, d.len() as u64, 4);
            put_bytes(out, d.as_slice());
            assert(out@ =~= start + enc_field(field_view(*f)));
        },
        Field::Qid(q) => put_qid(out, q),
        Field::Strs(v) => {
            let ghost ss = v@.map_values(|x: String| x@);
            put_le(out, v.len() as u64, 2);
            let ghost mid = out@;
            let mut i: usize = 0;
            while i < v.len()
                invariant
                    i <= v@.len(),
                    ss == v@.map_values(|x: String| x@),
                    forall|j: int| 0 <= j < ss.len() ==> str_wf(#[trigger] ss[j]),
                    out@ == mid + enc_strs(ss.take(i as int)),
                decreases v@.len() - i,
            {
                assert(str_wf(ss[i as int]));
                put_str(out, &v[i]);
                i = i + 1;
                assert(ss.take(i as int).drop_last() =~= ss.take(i - 1));
                assert(out@ =~= mid + enc_strs(ss.take(i as int)));
            }
            assert(ss.take(i as int) =~= ss);
            assert(out@ =~= start + enc_field(field_view(*f)));
        },
        Field::Qids(v) => {
            put_le(out, v.len() as u64, 2);
            let ghost mid = out@;
            let mut i: usize = 0;
            while i < v.len()
                invariant
                    i <= v@.len(),
                    out@ == mid + enc_qids(v@.take(i as int)),
                decreases v@.len() - i,
            {
                put_qid(out, &v[i]);
                i = i + 1;
                assert(v@.take(i as int).drop_last() =~= v@.take(i - 1));
                assert(out@ =~= mid + enc_qids(v@.take(i as int)));
            }
            assert(v@.take(i as int) =~= v@);
            assert(out@ =~= start + enc_field(field_view(*f)));
        },
    }
}

/// Encodes a list of fields, one after the other.
pub fn encode_fields(fields: &Vec<Field>) -> (r: Vec<u8>)
    requires
        fields_wf(fields_view(fields@)),
    ensures
        r@ == enc_fields(fields_view(fields@)),
{
    let ghost fs = fields_view(fields@);
    let mut out: Vec<u8> = Vec::new();
    let mut i: usize = 0;
    while i < fields.len()
        invariant
            i <= fields@.len(),
            fs == fields_view(fields@),
            fields_wf(fs),
            out@ == enc_fields(fs.take(i as int)),
        decreases fields@.len() - i,
    {
        assert(field_wf(fs[i as int]));
        put_field(&mut out, &fields[i]);
        i = i + 1;
        assert(fs.take(i as int).drop_last() =~= fs.take(i - 1));
    }
    assert(fs.take(i as int) =~= fs);
    out
}

/// `acc`, taking `c` bytes, followed by what `r` read.
pub open spec fn prepend<T>(acc: Seq<T>, c: nat, r: Option<(Seq<T>, nat)>) -> Option<(Seq<T>, nat)> {
    match r {
        Some((xs, m)) => Some((acc + xs, c + m)),
        None => None,
    }
}

proof fn lemma_prepend_step<T>(acc: Seq<T>, c: nat, x: T, n: nat, r: Option<(Seq<T>, nat)>)
    ensures
        prepend(acc, c, prepend(seq![x], n, r)) == prepend(acc.push(x), c + n, r),
{
    match r {
        Some((xs, m)) => {
            assert(acc + (seq![x] + xs) =~= acc.push(x) + xs);
        },
        None => {},
    }
}

fn get_str(buf: &[u8], pos: usize) -> (r: Option<(String, usize)>)
    requires
        pos <= buf@.len(),
    ensures
        match parse_str(buf@.skip(pos as int)) {
            Some((x, n)) => r matches Some((v, p)) && v@ == x && p == pos + n,
            None => r.is_none(),
        },
        r matches Some((_, p)) ==> p <= buf@.len(),
{
    let len = buf.len();
    let ghost t = buf@.skip(pos as int);
    if len - pos < 2 {
        return None;
    }
    let n64 = get_le(buf, pos, 2);
    proof {
        lemma_le_val_bound(buf@.subrange(pos as int, pos + 2));
        lemma_pow_values();
    }
    let n = n64 as usize;
    assert(buf@.subrange(pos as int, pos + 2) =~= t.take(2));
    if len - pos - 2 < n {
        return None;
    }
    let bytes = slice_subrange(buf, pos + 2, pos + 2 + n);
    assert(bytes@ =~= t.subrange(2, 2 + n));
    match utf8_string(vstd::slice::slice_to_vec(bytes)) {
        Some(s) => Some((s, pos + 2 + n)),
        None => None,
    }
}

fn get_qid(buf: &[u8], pos: usize) -> (r: Option<(Qid, usize)>)
    requires
        pos <= buf@.len(),
    ensures
        match parse_qid(buf@.skip(pos as int)) {
            Some((q, n)) => r matches Some((x, p)) && x == q && p == pos + n,
            None => r.is_none(),
        },
        r matches Some((_, p)) ==> p <= buf@.len(),
{
    let len = buf.len();
    let ghost t = buf@.skip(pos as int);
    if len - pos < 13 {
        return None;
    }
    let ty = get_le(buf, pos, 1);
    let version = get_le(buf, pos + 1, 4);
    let path = get_le(buf, pos + 5, 8);
    assert(buf@.subrange(pos as int, pos + 1) =~= t.take(1));
    assert(buf@.subrange(pos + 1, pos + 5) =~= t.subrange(1, 5));
    assert(buf@.subrange(pos + 5, pos + 13) =~= t.subrange(5, 13));
    Some((Qid { ty: ty as u8, version: version as u32, path }, pos + 13))
}

fn get_strs(buf: &[u8], pos: usize, count: usize) -> (r: Option<(Vec<String>, usize)>)
    requires
        pos <= buf@.len(),
    ensures
        match parse_strs(buf@.skip(pos as int), count as nat) {
            Some((xs, n)) => r matches Some((v, p)) && v@.map_values(|x: String| x@) == xs && p
                == pos + n,
            None => r.is_none(),
        },
        r matches Some((_, p)) ==> p <= buf@.len(),
{
    let ghost s0 = buf@.skip(pos as int);
    let mut out: Vec<String> = Vec::new();
    let mut p = pos;
    let mut i: usize = 0;
    while i < count
        invariant
            i <= count,
            pos <= p <= buf@.len(),
            s0 == buf@.skip(pos as int),
            parse_strs(s0, count as nat) == prepend(
                out@.map_values(|x: String| x@),
                (p - pos) as nat,
                parse_strs(buf@.skip(p as int), (count - i) as nat),
            ),
        decreases count - i,
    {
        let ghost t = buf@.skip(p as int);
        match get_str(buf, p) {
            Some((x, q)) => {
                proof {
                    let n = (q - p) as nat;
                    assert(t.skip(n as int) =~= buf@.skip(q as int));
                    lemma_prepend_step(
                        out@.map_values(|x: String| x@),
                        (p - pos) as nat,
                        x@,
                        n,
                        parse_strs(buf@.skip(q as int), (count - i - 1) as nat),
                    );
                }
                let ghost prev = out@;
                let ghost xv = x@;
                out.push(x);
                assert(out@.map_values(|x: String| x@) =~= prev.map_values(|x: String| x@).push(xv));
                p = q;
            },
            None => {
                return None;
            },
        }
        i = i + 1;
    }
    proof {
        assert(out@.map_values(|x: String| x@) + Seq::<Seq<char>>::empty() =~= out@.map_values(
            |x: String| x@,
        ));
    }
    Some((out, p))
}

fn get_qids(buf: &[u8], pos: usize, count: usize) -> (r: Option<(Vec<Qid>, usize)>)
    requires
        pos <= buf@.len(),
    ensures
        match parse_qids(buf@.skip(pos as int), count as nat) {
            Some((xs, n)) => r matches Some((v, p)) && v@ == xs && p == pos + n,
            None => r.is_none(),
        },
        r matches Some((_, p)) ==> p <= buf@.len(),
{
    let ghost s0 = buf@.skip(pos as int);
    let mut out: Vec<Qid> = Vec::new();
    let mut p = pos;
    let mut i: usize = 0;
    while i < count
        invariant
            i <= count,
            pos <= p <= buf@.len(),
            s0 == buf@.skip(pos as int),
            parse_qids(s0, count as nat) == prepend(
                out@,
                (p - pos) as nat,
                parse_qids(buf@.skip(p as int), (count - i) as nat),
            ),
        decreases count - i,
    {
        let ghost t = buf@.skip(p as int);
        match get_qid(buf, p) {
            Some((x, q)) => {
                proof {
                    let n = (q - p) as nat;
                    assert(t.skip(n as int) =~= buf@.skip(q as int));
                    lemma_prepend_step(
                        out@,
                        (p - pos) as nat,
                        x,
                        n,
                        parse_qids(buf@.skip(q as int), (count - i - 1) as nat),
                    );
                }
                out.push(x);
                p = q;
            },
            None => {
                return None;
            },
        }
        i = i + 1;
    }
    assert(out@ + Seq::<Qid>::empty() =~= out@);
    Some((out, p))
}

fn get_field(buf: &[u8], pos: usize, k: FieldKind) -> (r: Option<(Field, usize)>)
    requires
        pos <= buf@.len(),
    ensures
        match parse_field(k, buf@.skip(pos as int)) {
            Some((f, n)) => r matches Some((v, p)) && field_view(v) == f && p == pos + n,
            None => r.is_none(),
        },
        r matches Some((_, p)) ==> p <= buf@.len(),
{
    let len = buf.len();
    let ghost t = buf@.skip(pos as int);
    proof {
        lemma_pow_values();
    }
    match k {
        FieldKind::U8 => {
            if len - pos < 1 {
                return None;
            }
            let v = get_le(buf, pos, 1);
            assert(buf@.subrange(pos as int, pos + 1) =~= t.take(1));
            Some((Field::U8(v as u8), pos + 1))
        },
        FieldKind::U16 => {
            if len - pos < 2 {
                return None;
            }
            let v = get_le(buf, pos, 2);
            assert(buf@.subrange(pos as int, pos + 2) =~= t.take(2));
            Some((Field::U16(v as u16), pos + 2))
        },
        FieldKind::U32 => {
            if len - pos < 4 {
                return None;
            }
            let v = get_le(buf, pos, 4);
            assert(buf@.subrange(pos as int, pos + 4) =~= t.take(4));
            Some((Field::U32(v as u32), pos + 4))
        },
        FieldKind::U64 => {
            if len - pos < 8 {
                return None;
            }
            let v = get_le(buf, pos, 8);
            assert(buf@.subrange(pos as int, pos + 8) =~= t.take(8));
            Some((Field::U64(v), pos + 8))
        },
        FieldKind::Str => match get_str(buf, pos) {
            Some((x, p)) => Some((Field::Str(x), p)),
            None => None,
        },
        FieldKind::Data => {
            if len - pos < 4 {
                return None;
            }
            let n64 = get_le(buf, pos, 4);
            proof {
                lemma_le_val_bound(buf@.subrange(pos as int, pos + 4));
            }
            let n = n64 as usize;
            assert(buf@.subrange(pos as int, pos + 4) =~= t.take(4));
            if len - pos - 4 < n {
                return None;
            }
            let bytes = slice_subrange(buf, pos + 4, pos + 4 + n);
            assert(bytes@ =~= t.subrange(4, 4 + n));
            Some((Field::Data(vstd::slice::slice_to_vec(bytes)), pos + 4 + n))
        },
        FieldKind::Qid => match get_qid(buf, pos) {
            Some((q, p)) => Some((Field::Qid(q), p)),
            None => None,
        },
        FieldKind::Strs => {
            if len - pos < 2 {
                return None;
            }
            let n = get_le(buf, pos, 2);
            proof {
                lemma_le_val_bound(buf@.subrange(pos as int, pos + 2));
            }
            assert(buf@.subrange(pos as int, pos + 2) =~= t.take(2));
            assert(buf@.skip(pos + 2) =~= t.skip(2));
            match get_strs(buf, pos + 2, n as usize) {
                Some((v, p)) => Some((Field::Strs(v), p)),
                None => None,
            }
        },
        FieldKind::Qids => {
            if len - pos < 2 {
                return None;
            }
            let n = get_le(buf, pos, 2);
            proof {
                lemma_le_val_bound(buf@.subrange(pos as int, pos + 2));
            }
            assert(buf@.subrange(pos as int, pos + 2) =~= t.take(2));
            assert(buf@.skip(pos + 2) =~= t.skip(2));
            match get_qids(buf, pos + 2, n as usize) {
                Some((v, p)) => Some((Field::Qids(v), p)),
                None => None,
            }
        },
    }
}

/// Decodes fields of the kinds `kinds`, in order, from the start of `buf`:
/// the fields and the number of bytes they took, or `None` when `buf` is too
/// short or holds a string that is not UTF-8.
pub fn decode_fields(kinds: &Vec<FieldKind>, buf: &[u8]) -> (r: Option<(Vec<Field>, usize)>)
    ensures
        match parse_fields(kinds@, buf@) {
            Some((fs, n)) => r matches Some((v, p)) && fields_view(v@) == fs && p == n,
            None => r.is_none(),
        },
{
    let mut out: Vec<Field> = Vec::new();
    let mut p: usize = 0;
    let mut i: usize = 0;
    assert(buf@.skip(0) =~= buf@);
    assert(kinds@.skip(0) =~= kinds@);
    while i < kinds.len()
        invariant
            i <= kinds@.len(),
            p <= buf@.len(),
            parse_fields(kinds@, buf@) == prepend(
                fields_view(out@),
                p as nat,
                parse_fields(kinds@.skip(i as int), buf@.skip(p as int)),
            ),
        decreases kinds@.len() - i,
    {
        let ghost t = buf@.skip(p as int);
        let ghost ks = kinds@.skip(i as int);
        assert(ks[0] == kinds@[i as int]);
        assert(ks.drop_first() =~= kinds@.skip(i + 1));
        match get_field(buf, p, kinds[i]) {
            Some((f, q)) => {
                proof {
                    let n = (q - p) as nat;
                    assert(t.skip(n as int) =~= buf@.skip(q as int));
                    lemma_prepend_step(
                        fields_view(out@),
                        p as nat,
                        field_view(f),
                        n,
                        parse_fields(kinds@.skip(i + 1), buf@.skip(q as int)),
                    );
                }
                let ghost prev = out@;
                let ghost fv = field_view(f);
                out.push(f);
                assert(fields_view(out@) =~= fields_view(prev).push(fv));
                p = q;
            },
            None => {
                return None;
            },
        }
        i = i + 1;
    }
    assert(kinds@.skip(i as int) =~= Seq::<FieldKind>::empty());
    assert(fields_view(out@) + Seq::<FieldV>::empty() =~= fields_view(out@));
    Some((out, p))
}

} // verus!

//! Paginated directory enumeration: each `readdir` reply holds as many
//! consecutive entries as fit in the requested byte count, and the client
//! resumes from the cookie of the last entry it received.
use vstd::prelude::*;
use crate::messages::{encode_message, WireMessage};
use crate::protocol::Dirent;
use crate::wire::{enc_fields, fields_wf};

verus! {

/// The wire form of a directory entry.
pub open spec fn dirent_wire(d: Dirent) -> Seq<u8> {
    enc_fields(d.fields())
}

/// The wire forms of directory entries.
pub open spec fn dirent_wires(es: Seq<Dirent>) -> Seq<Seq<u8>> {
    es.map_values(|d: Dirent| dirent_wire(d))
}

/// Byte strings one after the other.
pub open spec fn concat(ss: Seq<Seq<u8>>) -> Seq<u8>
    decreases ss.len(),
{
    if ss.len() == 0 {
        Seq::empty()
    } else {
        concat(ss.drop_last()) + ss.last()
    }
}

/// How many of the leading byte strings `ss` fit, one after the other, in
/// `budget` bytes.
pub open spec fn fit(ss: Seq<Seq<u8>>, budget: nat) -> nat
    decreases ss.len(),
{
    if ss.len() == 0 || ss[0].len() > budget {
        0
    } else {
        1 + fit(ss.drop_first(), (budget - ss[0].len()) as nat)
    }
}

/// The entries that repeated `readdir` calls with byte count `count` hand
/// out, each call resuming just after the last entry of the one before, until
/// a call returns nothing.
pub open spec fn enumerate(ss: Seq<Seq<u8>>, count: nat) -> Seq<Seq<u8>>
    decreases ss.len(),
{
    let k = if fit(ss, count) <= ss.len() {
        fit(ss, count)
    } else {
        ss.len()
    };
    if k == 0 || ss.len() == 0 {
        Seq::empty()
    } else {
        ss.take(k as int) + enumerate(ss.skip(k as int), count)
    }
}

proof fn lemma_fit_unfold(ss: Seq<Seq<u8>>, i: int, budget: nat)
    requires
        0 <= i < ss.len(),
    ensures
        ss.skip(i)[0] == ss[i],
        ss.skip(i).drop_first() == ss.skip(i + 1),
        fit(ss.skip(i), budget) == if ss[i].len() > budget {
            0
        } else {
            1 + fit(ss.skip(i + 1), (budget - ss[i].len()) as nat)
        },
{
    assert(ss.skip(i).drop_first() =~= ss.skip(i + 1));
}

proof fn lemma_concat_step(ss: Seq<Seq<u8>>, i: int)
    requires
        0 <= i < ss.len(),
    ensures
        concat(ss.take(i + 1)) == concat(ss.take(i)) + ss[i],
{
    assert(ss.take(i + 1).drop_last() =~= ss.take(i));
}

proof fn lemma_fit_bound(ss: Seq<Seq<u8>>, budget: nat)
    ensures
        fit(ss, budget) <= ss.len(),
    decreases ss.len(),
{
    if ss.len() > 0 && ss[0].len() <= budget {
        lemma_fit_bound(ss.drop_first(), (budget - ss[0].len()) as nat);
    }
}

/// When every entry fits in one reply on its own, paging through a directory
/// hands out every entry exactly once, in order: none is skipped and none
/// comes twice, and the enumeration ends with an empty reply.
pub proof fn lemma_enumerate_all(ss: Seq<Seq<u8>>, count: nat)
    requires
        forall|i: int| 0 <= i < ss.len() ==> (#[trigger] ss[i]).len() <= count,
    ensures
        enumerate(ss, count) == ss,
        fit(ss.skip(ss.len() as int), count) == 0,
    decreases ss.len(),
{
    if ss.len() == 0 {
        assert(ss =~= Seq::<Seq<u8>>::empty());
    } else {
        let k = fit(ss, count);
        assert(ss[0].len() <= count);
        assert(k >= 1);
        lemma_fit_bound(ss, count);
        let rest = ss.skip(k as int);
        assert forall|i: int| 0 <= i < rest.len() implies (#[trigger] rest[i]).len() <= count by {
            assert(rest[i] == ss[i + k]);
        }
        lemma_enumerate_all(rest, count);
        assert(ss.take(k as int) + rest =~= ss);
    }
    assert(ss.skip(ss.len() as int).len() == 0);
}

/// Serializes the leading entries of `entries` that fit, one after the
/// other, in `count` bytes. Returns the bytes and how many entries they hold.
pub fn readdir_page(entries: &Vec<Dirent>, count: u32) -> (r: (Vec<u8>, usize))
    requires
        forall|i: int| 0 <= i < entries@.len() ==> fields_wf(#[trigger] entries@[i].fields()),
    ensures
        r.1 == fit(dirent_wires(entries@), count as nat),
        r.0@ == concat(dirent_wires(entries@).take(r.1 as int)),
        r.0@.len() <= count,
{
    let ghost ws = dirent_wires(entries@);
    let mut out: Vec<u8> = Vec::new();
    let mut i: usize = 0;
    assert(ws.skip(0) =~= ws);
    assert(ws.take(0) =~= Seq::<Seq<u8>>::empty());
    loop
        invariant
            i <= entries@.len(),
            ws == dirent_wires(entries@),
            forall|j: int| 0 <= j < entries@.len() ==> fields_wf(#[trigger] entries@[j].fields()),
            out@ == concat(ws.take(i as int)),
            out@.len() <= count,
            fit(ws, count as nat) == i + fit(ws.skip(i as int), (count - out@.len()) as nat),
        ensures
            fit(ws, count as nat) == i,
            out@ == concat(ws.take(i as int)),
            out@.len() <= count,
        decreases entries@.len() - i,
    {
        if i >= entries.len() {
            assert(ws.skip(i as int).len() == 0);
            break;
        }
        let bytes = encode_message(&entries[i]);
        proof {
            assert(ws[i as int] == bytes@);
            lemma_fit_unfold(ws, i as int, (count - out@.len()) as nat);
            lemma_concat_step(ws, i as int);
        }
        if bytes.len() > (count as usize) - out.len() {
            break;
        }
        let mut b = bytes;
        out.append(&mut b);
        i = i + 1;
    }
    (out, i)
}

} // verus!

//! The opening book: per-(position-hash, move) statistics gathered over
//! a corpus of games, the finalize pass that turns the counters into a
//! weight, and the fixed-width binary records the book is written as.

use std::collections::BTreeMap;
use vstd::prelude::*;
use vstd::wrapping::u64_specs;

verus! {

/// A finalized record: exactly what one 16-byte book entry carries.
#[derive(Clone, Copy, PartialEq, Eq, Structural)]
pub struct SfinalEntry {
    pub key: u64,
    pub move_: u16,
    pub weight: u16,
    pub learn: u32,
}

impl SfinalEntry {
    pub fn new(key: u64, move_: u16, weight: u16, learn: u32) -> (r: Self)
        ensures
            r == (SfinalEntry { key, move_, weight, learn }),
    {
        SfinalEntry { key, move_, weight, learn }
    }
}

/// One aggregated entry: the key fields that survive finalization and
/// the win counters they are computed from.
#[derive(Clone, Copy, PartialEq, Eq, Structural)]
pub struct Sentry {
    pub key: u64,
    pub move_: u16,
    pub weight: u16,
    pub learn: u32,
    pub win_white: u64,
    pub win_black: u64,
    pub total_games: u64,
}

/// The counters of an entry never claim more decisive games than games.
pub open spec fn entry_inv(e: Sentry) -> bool {
    e.win_white + e.win_black <= e.total_games
}

/// The entry created on first sight of a (hash, move) pair: one game,
/// with the white or black win counter seeded from the outcome's sign
/// (a draw seeds neither).
pub open spec fn spec_create(key: u64, mov: u16, winned: i32) -> Sentry {
    Sentry {
        key: key,
        move_: mov,
        weight: 0,
        learn: 0,
        win_white: if winned > 0 { 1u64 } else { 0u64 },
        win_black: if winned < 0 { 1u64 } else { 0u64 },
        total_games: 1,
    }
}

/// One more observation of an existing entry: the matching win counter
/// and the game counter both advance (a draw advances only the game
/// counter); at the counter limit the entry stays as it is.
pub open spec fn spec_insert_entry(e: Sentry, resul: i32) -> Sentry {
    if e.total_games < u64::MAX {
        Sentry {
            win_white: if resul > 0 {
                u64_specs::wrapping_add(e.win_white, 1)
            } else {
                e.win_white
            },
            win_black: if resul < 0 {
                u64_specs::wrapping_add(e.win_black, 1)
            } else {
                e.win_black
            },
            total_games: (e.total_games + 1) as u64,
            ..e
        }
    } else {
        e
    }
}

/// Index of the first entry of the bucket matching (hash, move), or -1.
pub open spec fn spec_find(elems: Seq<Sentry>, hash_key: u64, mov: u16, i: int) -> int
    decreases elems.len() - i,
{
    if i < 0 || i >= elems.len() {
        -1
    } else if elems[i].key == hash_key && elems[i].move_ == mov {
        i
    } else {
        spec_find(elems, hash_key, mov, i + 1)
    }
}

/// A bucket after recording one observation: the matching entry is
/// advanced, or a fresh entry is appended if none matches.
pub open spec fn spec_modify(elems: Seq<Sentry>, hash_key: u64, mov: u16, resul: i32) -> Seq<
    Sentry,
> {
    let j = spec_find(elems, hash_key, mov, 0);
    if j >= 0 {
        elems.update(j, spec_insert_entry(elems[j], resul))
    } else {
        elems.push(spec_create(hash_key, mov, resul))
    }
}

/// The finalize-pass weight of an entry: twice the white wins plus the
/// draws, truncated to the 16-bit field of the record format.
pub open spec fn spec_weight(e: Sentry) -> u16 {
    ((2 * e.win_white + (e.total_games - e.win_white - e.win_black)) % 0x10000) as u16
}

/// An entry after the finalize pass.
pub open spec fn spec_finalize_entry(e: Sentry) -> Sentry {
    Sentry { weight: spec_weight(e), ..e }
}

/// The record a finalized entry flattens to.
pub open spec fn spec_record_of(e: Sentry) -> SfinalEntry {
    SfinalEntry { key: e.key, move_: e.move_, weight: e.weight, learn: e.learn }
}

/// Every counter of every entry of the book is coherent.
pub open spec fn book_inv(m: Map<u64, Vec<Sentry>>) -> bool {
    forall|k: u64, j: int|
        m.contains_key(k) && 0 <= j < m[k]@.len() ==> entry_inv(#[trigger] m[k]@[j])
}

impl Sentry {
    pub fn new() -> (r: Self)
        ensures
            r == (Sentry {
                key: 0u64,
                move_: 0u16,
                weight: 0u16,
                learn: 0u32,
                win_white: 0u64,
                win_black: 0u64,
                total_games: 0u64,
            }),
    {
        Sentry { key: 0, move_: 0, weight: 0, learn: 0, win_white: 0, win_black: 0, total_games: 0 }
    }

    /// First observation of a (hash, move) pair.
    pub fn create_entry(key: u64, move_: u16, winned: i32) -> (r: Self)
        ensures
            r == spec_create(key, move_, winned),
            entry_inv(r),
    {
        let w_white: u64 = if winned > 0 { 1 } else { 0 };
        let w_black: u64 = if winned < 0 { 1 } else { 0 };
        Sentry {
            key,
            move_,
            weight: 0,
            learn: 0,
            win_white: w_white,
            win_black: w_black,
            total_games: 1,
        }
    }
}

/// Record one observation in a bucket: advance the matching entry or
/// append a fresh one.
pub fn modify_node(elems: &mut Vec<Sentry>, hash_key: u64, mov: u16, resul: i32)
    ensures
        final(elems)@ == spec_modify(old(elems)@, hash_key, mov, resul),
{
    let ghost elems0 = elems@;
    let n = elems.len();
    let mut i: usize = 0;
    while i < n
        invariant_except_break
            spec_find(elems0, hash_key, mov, 0) == spec_find(elems0, hash_key, mov, i as int),
        invariant
            n == elems@.len(),
            i <= n,
            elems@ == elems0,
        ensures
            i <= n,
            elems@ == elems0,
            i < n ==> spec_find(elems0, hash_key, mov, 0) == i as int,
            i == n ==> spec_find(elems0, hash_key, mov, 0) == -1,
        decreases n - i,
    {
        if elems[i].key == hash_key && elems[i].move_ == mov {
            proof {
                assert(spec_find(elems0, hash_key, mov, i as int) == i as int);
            }
            break;
        }
        i = i + 1;
    }
    if i < n {
        let e = elems[i];
        let e2 = if e.total_games < u64::MAX {
            Sentry {
                win_white: if resul > 0 { e.win_white.wrapping_add(1) } else { e.win_white },
                win_black: if resul < 0 { e.win_black.wrapping_add(1) } else { e.win_black },
                total_games: e.total_games + 1,
                ..e
            }
        } else {
            e
        };
        assert(e2 == spec_insert_entry(e, resul));
        elems.set(i, e2);
    } else {
        elems.push(Sentry::create_entry(hash_key, mov, resul));
    }
}

/// Compute the weight of every entry of a bucket.
pub fn make_weight(elems: &mut Vec<Sentry>)
    requires
        forall|j: int| 0 <= j < old(elems)@.len() ==> entry_inv(#[trigger] old(elems)@[j]),
    ensures
        final(elems)@ == old(elems)@.map_values(|e: Sentry| spec_finalize_entry(e)),
{
    let ghost elems0 = elems@;
    let n = elems.len();
    let mut i: usize = 0;
    while i < n
        invariant
            n == elems@.len(),
            elems@.len() == elems0.len(),
            i <= n,
            forall|j: int| 0 <= j < n ==> entry_inv(#[trigger] elems0[j]),
            forall|j: int| i <= j < n ==> #[trigger] elems@[j] == elems0[j],
            forall|j: int| 0 <= j < i ==> #[trigger] elems@[j] == spec_finalize_entry(elems0[j]),
        decreases n - i,
    {
        let e = elems[i];
        let d = e.total_games - e.win_white - e.win_black;
        let wide: u128 = 2 * (e.win_white as u128) + (d as u128);
        let w = (wide % 0x10000) as u16;
        assert(w == spec_weight(e));
        elems.set(i, Sentry { weight: w, ..e });
        i = i + 1;
    }
    proof {
        assert(elems@ =~= elems0.map_values(|e: Sentry| spec_finalize_entry(e)));
    }
}

/// The book under construction: every bucket of entries, keyed by
/// position hash.
pub struct Sbook {
    pub btree: BTreeMap<u64, Vec<Sentry>>,
}

impl Sbook {
    pub fn new() -> (r: Self)
        ensures
            r.btree@ == Map::<u64, Vec<Sentry>>::empty(),
    {
        Sbook { btree: BTreeMap::new() }
    }

    /// Drop everything gathered so far.
    pub fn book_clear(&mut self)
        ensures
            final(self).btree@ == Map::<u64, Vec<Sentry>>::empty(),
    {
        self.btree = BTreeMap::new();
    }

    /// Record one observed (hash, move, outcome) triple: the bucket of
    /// the hash gains the observation, other buckets are untouched.
    pub fn insert_move(&mut self, hash_key: u64, mov: u16, resul: i32)
        ensures
            final(self).btree@.dom() == old(self).btree@.dom().insert(hash_key),
            final(self).btree@[hash_key]@ == spec_modify(
                if old(self).btree@.contains_key(hash_key) {
                    old(self).btree@[hash_key]@
                } else {
                    Seq::<Sentry>::empty()
                },
                hash_key,
                mov,
                resul,
            ),
            forall|k: u64|
                k != hash_key && old(self).btree@.contains_key(k) ==> final(self).btree@.contains_key(k) && final(self).btree@[k] == #[trigger] old(self).btree@[k],
    {
        let found = self.btree.remove(&hash_key);
        match found {
            Some(mut elems) => {
                modify_node(&mut elems, hash_key, mov, resul);
                self.btree.insert(hash_key, elems);
            },
            None => {
                self.append_hash(hash_key, mov, resul);
            },
        }
        proof {
            assert(final(self).btree@.dom() =~= old(self).btree@.dom().insert(hash_key));
        }
    }

    /// Open a fresh bucket for a hash seen for the first time.
    pub fn append_hash(&mut self, hash_key: u64, mov: u16, resul: i32)
        ensures
            final(self).btree@ == old(self).btree@.insert(hash_key, final(self).btree@[hash_key]),
            final(self).btree@.contains_key(hash_key),
            final(self).btree@[hash_key]@ == seq![spec_create(hash_key, mov, resul)],
    {
        let entry = Sentry::create_entry(hash_key, mov, resul);
        let mut vector: Vec<Sentry> = Vec::new();
        vector.push(entry);
        self.btree.insert(hash_key, vector);
    }

    /// The finalize pass: compute the weight of every entry of every
    /// bucket.  Runs once, after all games have been ingested.
    pub fn do_calculations(&mut self)
        requires
            book_inv(old(self).btree@),
        ensures
            final(self).btree@.dom() == old(self).btree@.dom(),
            forall|k: u64|
                old(self).btree@.contains_key(k) ==> final(self).btree@[k]@ == (#[trigger] old(self).btree@[k])@.map_values(|e: Sentry| spec_finalize_entry(e)),
    {
        let ghost m0 = self.btree@;
        let mut out: BTreeMap<u64, Vec<Sentry>> = BTreeMap::new();
        for kv in it: self.btree.iter()
            invariant
                m0 == self.btree@,
                book_inv(m0),
                forall|j: int| 0 <= j < it.seq().len() ==> m0.contains_key(
                    *(#[trigger] it.seq()[j]).0,
                ) && m0[*it.seq()[j].0] == *it.seq()[j].1,
                forall|k: u64| #[trigger] m0.contains_key(k) ==> exists|j: int|
                    0 <= j < it.seq().len() && *(#[trigger] it.seq()[j]).0 == k,
                forall|j: int| 0 <= j < it.index() ==> out@.contains_key(
                    *(#[trigger] it.seq()[j]).0,
                ) && out@[*it.seq()[j].0]@ == m0[*it.seq()[j].0]@.map_values(
                    |e: Sentry| spec_finalize_entry(e),
                ),
                forall|k: u64| #[trigger] out@.contains_key(k) ==> exists|j: int|
                    0 <= j < it.index() && *(#[trigger] it.seq()[j]).0 == k,
        {
            let k: u64 = *kv.0;
            let mut elems: Vec<Sentry> = kv.1.clone();
            assert(elems@ == m0[k]@);
            make_weight(&mut elems);
            out.insert(k, elems);
        }
        self.btree = out;
        proof {
            assert(final(self).btree@.dom() =~= old(self).btree@.dom());
        }
    }
}


/// Byte `k` of the `size`-byte big-endian form of `n`.
pub open spec fn spec_be_byte(n: u64, size: int, k: int) -> u8 {
    ((n >> ((8 * (size - 1 - k)) as u64)) & 0xFF) as u8
}

/// The `size`-byte big-endian form of `n`.
pub open spec fn spec_be_bytes(n: u64, size: int) -> Seq<u8> {
    Seq::new(size as nat, |k: int| spec_be_byte(n, size, k))
}

/// Append the `size`-byte big-endian form of `n` to `out`.
pub fn write_integer(out: &mut Vec<u8>, size: usize, n: u64)
    requires
        1 <= size <= 8,
        size < 8 ==> n >> ((8 * size) as u64) == 0,
    ensures
        final(out)@ == old(out)@ + spec_be_bytes(n, size as int),
{
    let ghost out0 = out@;
    let mut i: usize = size;
    while i > 0
        invariant
            i <= size,
            1 <= size <= 8,
            out@ == out0 + Seq::new((size - i) as nat, |k: int| spec_be_byte(n, size as int, k)),
        decreases i,
    {
        i = i - 1;
        let b = (n >> (i * 8)) & 0xFF;
        out.push(b as u8);
        proof {
            assert(b as u8 == spec_be_byte(n, size as int, size - 1 - i));
            assert(Seq::new((size - i) as nat, |k: int| spec_be_byte(n, size as int, k))
                =~= Seq::new((size - i - 1) as nat, |k: int| spec_be_byte(n, size as int, k)).push(
                spec_be_byte(n, size as int, size - 1 - i),
            ));
        }
    }
    proof {
        assert(out@ =~= out0 + spec_be_bytes(n, size as int));
    }
}

/// The 16 bytes of a record: 8 bytes hash, 2 bytes move, 2 bytes
/// weight, 4 reserved zero bytes, all big-endian.
pub open spec fn spec_entry_bytes(e: SfinalEntry) -> Seq<u8> {
    spec_be_bytes(e.key, 8) + spec_be_bytes(e.move_ as u64, 2) + spec_be_bytes(e.weight as u64, 2)
        + spec_be_bytes(0, 4)
}

impl SfinalEntry {
    /// Serialize this record to its exact 16-byte binary form.
    pub fn to_bytes(&self) -> (r: Vec<u8>)
        ensures
            r@ == spec_entry_bytes(*self),
            r@.len() == 16,
    {
        let mut out: Vec<u8> = Vec::new();
        write_integer(&mut out, 8, self.key);
        proof {
            let m = self.move_ as u64;
            assert(m < 65536 ==> m >> 16u64 == 0) by (bit_vector);
            let w = self.weight as u64;
            assert(w < 65536 ==> w >> 16u64 == 0) by (bit_vector);
            assert(0u64 >> 32u64 == 0) by (bit_vector);
        }
        write_integer(&mut out, 2, self.move_ as u64);
        write_integer(&mut out, 2, self.weight as u64);
        write_integer(&mut out, 4, 0);
        proof {
            assert(out@ =~= spec_entry_bytes(*self));
        }
        out
    }
}

/// The byte stream of a whole list of records, 16 bytes each, in list
/// order, with no header and no footer.
pub fn records_to_bytes(records: &Vec<SfinalEntry>) -> (r: Vec<u8>)
    ensures
        r@.len() == 16 * records@.len(),
        forall|j: int| 0 <= j < records@.len() ==> r@.subrange(16 * j, 16 * j + 16)
            == spec_entry_bytes(#[trigger] records@[j]),
{
    let mut out: Vec<u8> = Vec::new();
    let n = records.len();
    let mut i: usize = 0;
    while i < n
        invariant
            n == records@.len(),
            i <= n,
            out@.len() == 16 * i,
            forall|j: int| 0 <= j < i ==> out@.subrange(16 * j, 16 * j + 16) == spec_entry_bytes(
                #[trigger] records@[j],
            ),
        decreases n - i,
    {
        let mut b = records[i].to_bytes();
        out.append(&mut b);
        proof {
            assert forall|j: int| 0 <= j < i + 1 implies out@.subrange(16 * j, 16 * j + 16)
                == spec_entry_bytes(#[trigger] records@[j]) by {
                if j < i {
                    assert(out@.subrange(16 * j, 16 * j + 16) =~= out@.subrange(0, 16 * i as int)
                        .subrange(16 * j, 16 * j + 16));
                } else {
                    assert(out@.subrange(16 * i as int, 16 * i as int + 16)
                        =~= spec_entry_bytes(records@[j]));
                }
            }
        }
        i = i + 1;
    }
    out
}

/// The records of every bucket of `m`, bucket after bucket, in the key
/// order given by `ks`.
pub open spec fn spec_flatten(m: Map<u64, Vec<Sentry>>, ks: Seq<u64>) -> Seq<SfinalEntry>
    decreases ks.len(),
{
    if ks.len() == 0 {
        Seq::empty()
    } else {
        m[ks[0]]@.map_values(|e: Sentry| spec_record_of(e)) + spec_flatten(m, ks.drop_first())
    }
}

impl Sbook {
    /// Flatten the finalized book into one record per entry, bucket by
    /// bucket under some enumeration of the keys without repeats.  The
    /// consuming format does not require a particular record order.
    pub fn book_records(&self) -> (r: Vec<SfinalEntry>)
        ensures
            exists|ks: Seq<u64>|
                ks.no_duplicates() && ks.to_set() == self.btree@.dom() && r@ == #[trigger]
                    spec_flatten(self.btree@, ks),
    {
        let ghost m0 = self.btree@;
        let mut out: Vec<SfinalEntry> = Vec::new();
        let ghost mut gkeys: Seq<u64> = Seq::empty();
        for kv in it: self.btree.iter()
            invariant
                m0 == self.btree@,
                it.seq().no_duplicates(),
                forall|j: int| 0 <= j < it.seq().len() ==> m0.contains_key(
                    *(#[trigger] it.seq()[j]).0,
                ) && m0[*it.seq()[j].0] == *it.seq()[j].1,
                forall|k: u64| #[trigger] m0.contains_key(k) ==> exists|j: int|
                    0 <= j < it.seq().len() && *(#[trigger] it.seq()[j]).0 == k,
                gkeys.len() == it.index(),
                forall|j: int| 0 <= j < it.index() ==> #[trigger] gkeys[j] == *it.seq()[j].0,
                gkeys.no_duplicates(),
                forall|k: u64| #[trigger] gkeys.contains(k) ==> m0.contains_key(k),
                forall|k: u64| #[trigger] m0.contains_key(k) && !gkeys.contains(k)
                    ==> exists|j: int|
                    it.index() <= j < it.seq().len() && *(#[trigger] it.seq()[j]).0 == k,
                out@ == spec_flatten(m0, gkeys),
        {
            let k: u64 = *kv.0;
            let bucket: &Vec<Sentry> = kv.1;
            let ghost gkeys_before = gkeys;
            proof {
                assert(kv == it.seq()[it.index()]);
                if gkeys.contains(k) {
                    let j0 = choose|j0: int| 0 <= j0 < gkeys.len() && gkeys[j0] == k;
                    assert(it.seq()[j0] == it.seq()[it.index()]);
                    assert(false);
                }
                gkeys = gkeys.push(k);
            }
            let n = bucket.len();
            let mut i: usize = 0;
            while i < n
                invariant
                    n == bucket@.len(),
                    i <= n,
                    bucket@ == m0[gkeys_before.push(k).last()]@,
                    out@ == spec_flatten(m0, gkeys_before) + bucket@.map_values(
                        |e: Sentry| spec_record_of(e),
                    ).take(i as int),
                decreases n - i,
            {
                let e = bucket[i];
                out.push(SfinalEntry::new(e.key, e.move_, e.weight, e.learn));
                proof {
                    assert(bucket@.map_values(|e: Sentry| spec_record_of(e)).take(i + 1)
                        =~= bucket@.map_values(|e: Sentry| spec_record_of(e)).take(i as int).push(
                        spec_record_of(bucket@[i as int]),
                    ));
                }
                i = i + 1;
            }
            proof {
                assert(bucket@.map_values(|e: Sentry| spec_record_of(e)).take(n as int)
                    =~= bucket@.map_values(|e: Sentry| spec_record_of(e)));
                lemma_flatten_snoc(m0, gkeys_before, k);
                assert forall|kk: u64| m0.contains_key(kk) && !gkeys.contains(kk)
                    implies exists|j: int|
                    it.index() + 1 <= j < it.seq().len() && *(#[trigger] it.seq()[j]).0 == kk by {
                    if gkeys_before.contains(kk) {
                        let i0 = choose|i0: int|
                            0 <= i0 < gkeys_before.len() && gkeys_before[i0] == kk;
                        assert(gkeys[i0] == kk);
                        assert(false);
                    }
                    let j = choose|j: int|
                        it.index() <= j < it.seq().len() && *(#[trigger] it.seq()[j]).0 == kk;
                    assert(j != it.index());
                    assert(it.index() + 1 <= j < it.seq().len() && *(it.seq()[j]).0 == kk);
                }
            }
        }
        proof {
            assert(gkeys.to_set() =~= m0.dom()) by {
                assert forall|k: u64| gkeys.to_set().contains(k) implies m0.dom().contains(
                    k,
                ) by {
                    assert(gkeys.contains(k));
                }
                assert forall|k: u64| m0.dom().contains(k) implies gkeys.to_set().contains(
                    k,
                ) by {
                    assert(m0.contains_key(k));
                    if !gkeys.contains(k) {
                        assert(false);
                    }
                }
            }
            assert(gkeys.no_duplicates() && gkeys.to_set() == self.btree@.dom() && out@
                == spec_flatten(self.btree@, gkeys));
        }
        out
    }
}

/// Flattening one more key appends that key's records.
proof fn lemma_flatten_snoc(m: Map<u64, Vec<Sentry>>, ks: Seq<u64>, k: u64)
    ensures
        spec_flatten(m, ks.push(k)) == spec_flatten(m, ks) + m[k]@.map_values(
            |e: Sentry| spec_record_of(e),
        ),
    decreases ks.len(),
{
    reveal_with_fuel(spec_flatten, 3);
    if ks.len() == 0 {
        assert(ks.push(k).drop_first() =~= Seq::<u64>::empty());
        assert(spec_flatten(m, ks.push(k)) =~= m[k]@.map_values(|e: Sentry| spec_record_of(e)));
        assert(spec_flatten(m, ks) + m[k]@.map_values(|e: Sentry| spec_record_of(e))
            =~= m[k]@.map_values(|e: Sentry| spec_record_of(e)));
    } else {
        assert(ks.push(k).drop_first() =~= ks.drop_first().push(k));
        lemma_flatten_snoc(m, ks.drop_first(), k);
        assert(spec_flatten(m, ks.push(k)) =~= spec_flatten(m, ks) + m[k]@.map_values(
            |e: Sentry| spec_record_of(e),
        ));
    }
}


/// Number of outcomes in the series won by the first player.
pub open spec fn count_pos(rs: Seq<i32>) -> int
    decreases rs.len(),
{
    if rs.len() == 0 {
        0
    } else {
        count_pos(rs.drop_last()) + if rs.last() > 0 {
            1int
        } else {
            0int
        }
    }
}

/// Number of outcomes in the series won by the second player.
pub open spec fn count_neg(rs: Seq<i32>) -> int
    decreases rs.len(),
{
    if rs.len() == 0 {
        0
    } else {
        count_neg(rs.drop_last()) + if rs.last() < 0 {
            1int
        } else {
            0int
        }
    }
}

/// A bucket after recording a whole series of outcomes of the same
/// (hash, move) pair, in order.
pub open spec fn spec_apply_results(
    elems: Seq<Sentry>,
    hash_key: u64,
    mov: u16,
    rs: Seq<i32>,
) -> Seq<Sentry>
    decreases rs.len(),
{
    if rs.len() == 0 {
        elems
    } else {
        spec_modify(spec_apply_results(elems, hash_key, mov, rs.drop_last()), hash_key, mov,
            rs.last())
    }
}

/// Removing one outcome from a series lowers the matching win count by
/// exactly its contribution.
proof fn lemma_count_remove(rs: Seq<i32>, j: int)
    requires
        0 <= j < rs.len(),
    ensures
        count_pos(rs) == count_pos(rs.remove(j)) + if rs[j] > 0 { 1int } else { 0int },
        count_neg(rs) == count_neg(rs.remove(j)) + if rs[j] < 0 { 1int } else { 0int },
    decreases rs.len(),
{
    if j == rs.len() - 1 {
        assert(rs.remove(j) =~= rs.drop_last());
    } else {
        assert(rs.remove(j).drop_last() =~= rs.drop_last().remove(j));
        assert(rs.remove(j).last() == rs.last());
        lemma_count_remove(rs.drop_last(), j);
    }
}

/// The win counts of a series depend only on which outcomes occur, not
/// on their order.
pub proof fn lemma_counts_permutation(rs1: Seq<i32>, rs2: Seq<i32>)
    requires
        rs1.to_multiset() == rs2.to_multiset(),
    ensures
        count_pos(rs1) == count_pos(rs2),
        count_neg(rs1) == count_neg(rs2),
        rs1.len() == rs2.len(),
    decreases rs1.len(),
{
    broadcast use vstd::seq_lib::group_to_multiset_ensures;

    assert(rs1.to_multiset().len() == rs1.len());
    assert(rs2.to_multiset().len() == rs2.len());
    if rs1.len() == 0 {
        assert(rs2.len() == 0);
    } else {
        let x = rs1.last();
        assert(rs1 =~= rs1.drop_last().push(x));
        assert(rs1.to_multiset().count(x) > 0);
        assert(rs2.to_multiset().count(x) > 0);
        assert(rs2.contains(x));
        let j = choose|j: int| 0 <= j < rs2.len() && rs2[j] == x;
        assert(rs1.drop_last() =~= rs1.remove(rs1.len() - 1));
        assert(rs1.remove(rs1.len() - 1).to_multiset() =~= rs1.to_multiset().remove(x));
        assert(rs2.remove(j).to_multiset() =~= rs2.to_multiset().remove(x));
        lemma_counts_permutation(rs1.drop_last(), rs2.remove(j));
        lemma_count_remove(rs2, j);
    }
}

/// Aggregation arithmetic: recording a series of outcomes of one
/// (hash, move) pair into an empty bucket yields a single entry whose
/// game total is the length of the series and whose win counters are
/// the win counts of the series; its finalize-pass weight is twice the
/// first player's wins plus the draws.  By `lemma_counts_permutation`,
/// none of this depends on the order of the series.
pub proof fn lemma_aggregation(hash_key: u64, mov: u16, rs: Seq<i32>)
    requires
        1 <= rs.len() < u64::MAX,
    ensures
        ({
            let out = spec_apply_results(Seq::empty(), hash_key, mov, rs);
            &&& out.len() == 1
            &&& out[0].key == hash_key
            &&& out[0].move_ == mov
            &&& out[0].total_games == rs.len()
            &&& out[0].win_white == count_pos(rs)
            &&& out[0].win_black == count_neg(rs)
            &&& spec_weight(out[0]) == (2 * count_pos(rs) + (rs.len() - count_pos(rs)
                - count_neg(rs))) % 0x10000
        }),
    decreases rs.len(),
{
    reveal_with_fuel(spec_apply_results, 2);
    reveal_with_fuel(count_pos, 2);
    reveal_with_fuel(count_neg, 2);
    lemma_count_bounds(rs);
    if rs.len() == 1 {
        assert(rs.drop_last().len() == 0);
        let one = spec_apply_results(Seq::empty(), hash_key, mov, rs);
        assert(spec_find(Seq::<Sentry>::empty(), hash_key, mov, 0) == -1);
        assert(one =~= Seq::empty().push(spec_create(hash_key, mov, rs.last())));
        assert(one.len() == 1 && one[0].key == hash_key && one[0].move_ == mov);
        assert(one[0].total_games == rs.len());
        assert(one[0].win_white == count_pos(rs));
        assert(one[0].win_black == count_neg(rs));
        assert(spec_weight(one[0]) == (2 * count_pos(rs) + (rs.len() - count_pos(rs)
            - count_neg(rs))) % 0x10000);
    } else {
        lemma_aggregation(hash_key, mov, rs.drop_last());
        lemma_count_bounds(rs.drop_last());
        let prev = spec_apply_results(Seq::empty(), hash_key, mov, rs.drop_last());
        let out = spec_apply_results(Seq::empty(), hash_key, mov, rs);
        assert(spec_find(prev, hash_key, mov, 0) == 0);
        assert(out == spec_modify(prev, hash_key, mov, rs.last()));
        assert(out == prev.update(0, spec_insert_entry(prev[0], rs.last())));
        assert(prev[0].total_games < u64::MAX);
        assert(out[0] == spec_insert_entry(prev[0], rs.last()));
        assert(out[0].win_white == count_pos(rs));
        assert(out[0].win_black == count_neg(rs));
        assert(out[0].total_games == rs.len());
        assert(spec_weight(out[0]) == (2 * count_pos(rs) + (rs.len() - count_pos(rs)
            - count_neg(rs))) % 0x10000);
    }
}

/// The win counts never exceed the length of the series, and together
/// account for at most all of it.
pub proof fn lemma_count_bounds(rs: Seq<i32>)
    ensures
        0 <= count_pos(rs),
        0 <= count_neg(rs),
        count_pos(rs) + count_neg(rs) <= rs.len(),
    decreases rs.len(),
{
    if rs.len() > 0 {
        lemma_count_bounds(rs.drop_last());
    }
}

} // verus!

//! Random choices: indices drawn from `rand`, identifiers built from them,
//! and the swap shuffle used on directory listings.
use vstd::prelude::*;
use rand::Rng;

verus! {

/// `rand::thread_rng().gen_range(0..end)`: a number drawn from the half-open
/// range `0..end`. `gen_range` panics on an empty range, hence `end > 0`;
/// which number comes back is chance, so nothing more is stated.
#[verifier::external_body]
pub(crate) fn random_below(end: usize) -> (res: usize)
    requires
        end > 0,
    ensures
        res < end,
{
    rand::thread_rng().gen_range(0..end)
}

/// `v` is a number the random source handed out for the range `0..end`:
/// a result of `random_below(end)`. Nothing else is known to be one, so a
/// value the code makes up is not.
pub closed spec fn drawn_below(end: usize, v: usize) -> bool {
    call_ensures(random_below, (end,), v)
}

/// A number drawn from the random source below `end`.
pub(crate) fn draw_below(end: usize) -> (res: usize)
    requires
        end > 0,
    ensures
        res < end,
        drawn_below(end, res),
{
    random_below(end)
}

/// The alphabet of generated identifiers: `_`, `-`, digits, lower-case and
/// upper-case letters, in that order.
pub open spec fn id_symbol(v: int) -> char {
    if v == 0 {
        '_'
    } else if v == 1 {
        '-'
    } else if v < 12 {
        ((v - 2) + 48) as char
    } else if v < 38 {
        ((v - 12) + 97) as char
    } else {
        ((v - 38) + 65) as char
    }
}

/// A character of the identifier alphabet.
pub open spec fn is_id_symbol(c: char) -> bool {
    exists|v: int| 0 <= v < 64 && id_symbol(v) == c
}

/// The identifier spelled by the 6-bit values `picks`.
pub open spec fn id_from_values(picks: Seq<usize>) -> Seq<char> {
    picks.map_values(|v: usize| id_symbol(v as int))
}

fn id_char(v: usize) -> (c: char)
    requires
        v < 64,
    ensures
        c == id_symbol(v as int),
{
    if v == 0 {
        '_'
    } else if v == 1 {
        '-'
    } else if v < 12 {
        ((v - 2) as u8 + 48) as char
    } else if v < 38 {
        ((v - 12) as u8 + 97) as char
    } else {
        ((v - 38) as u8 + 65) as char
    }
}

/// The identifier spelled by the given values of the alphabet.
pub fn id_from_picks(picks: &Vec<usize>) -> (res: String)
    requires
        forall|k: int| 0 <= k < picks.len() ==> picks[k] < 64,
    ensures
        res@ == id_from_values(picks@),
{
    let mut res = String::new();
    let mut k: usize = 0;
    while k < picks.len()
        invariant
            k <= picks.len(),
            forall|m: int| 0 <= m < picks.len() ==> picks[m] < 64,
            res@ =~= id_from_values(picks@.subrange(0, k as int)),
        decreases picks.len() - k,
    {
        crate::text::push_char(&mut res, id_char(picks[k]));
        k = k + 1;
        assert(res@ =~= id_from_values(picks@.subrange(0, k as int)));
    }
    assert(picks@.subrange(0, picks.len() as int) =~= picks@);
    res
}

/// `s` is an identifier of `len` characters, each spelling its own draw
/// from the random source below 64.
pub open spec fn is_random_id(s: Seq<char>, len: nat) -> bool {
    exists|picks: Seq<usize>|
        picks.len() == len && (forall|k: int|
            0 <= k < len ==> picks[k] < 64 && drawn_below(64, #[trigger] picks[k])) && s
            == id_from_values(picks)
}

/// A random identifier of `len` characters of the identifier alphabet.
pub fn random_id(len: usize) -> (res: String)
    ensures
        res@.len() == len,
        exists|picks: Seq<usize>|
            picks.len() == len && (forall|k: int| 0 <= k < len ==> picks[k] < 64) && res@
                == id_from_values(picks),
        is_random_id(res@, len as nat),
{
    let mut picks: Vec<usize> = Vec::new();
    let mut k: usize = 0;
    while k < len
        invariant
            k <= len,
            picks.len() == k,
            forall|m: int| 0 <= m < k ==> picks[m] < 64 && drawn_below(64, #[trigger] picks[m]),
        decreases len - k,
    {
        picks.push(random_below(64));
        k = k + 1;
    }
    let res = id_from_picks(&picks);
    assert(res@ == id_from_values(picks@));
    res
}

/// `s` with the items at positions `i` and `j` exchanged.
pub open spec fn swap_spec<T>(s: Seq<T>, i: int, j: int) -> Seq<T> {
    s.update(i, s[j]).update(j, s[i])
}

/// `s` after exchanging, for each `k` in order, position `k` with position
/// `picks[k]`.
pub open spec fn swaps_spec<T>(s: Seq<T>, picks: Seq<usize>) -> Seq<T>
    decreases picks.len(),
{
    if picks.len() == 0 {
        s
    } else {
        let before = swaps_spec(s, picks.drop_last());
        swap_spec(before, picks.len() - 1, picks.last() as int)
    }
}

/// `<[T]>::swap`: exchanges the items at positions `a` and `b`; it panics
/// when either is out of bounds, hence the `requires`.
#[verifier::external_body]
fn swap_items<T>(v: &mut Vec<T>, a: usize, b: usize)
    requires
        a < old(v).len(),
        b < old(v).len(),
    ensures
        final(v)@ == swap_spec(old(v)@, a as int, b as int),
{
    v.swap(a, b);
}

proof fn lemma_swaps_len<T>(s: Seq<T>, picks: Seq<usize>)
    requires
        picks.len() <= s.len(),
        forall|k: int| 0 <= k < picks.len() ==> picks[k] < s.len(),
    ensures
        swaps_spec(s, picks).len() == s.len(),
        swaps_spec(s, picks).to_multiset() == s.to_multiset(),
    decreases picks.len(),
{
    broadcast use vstd::seq_lib::to_multiset_update;
    if picks.len() > 0 {
        let p = picks.drop_last();
        lemma_swaps_len(s, p);
        let b = swaps_spec(s, p);
        let i = picks.len() - 1;
        let j = picks.last() as int;
        let m = b.update(i, b[j]);
        let r = m.update(j, b[i]);
        assert(swaps_spec(s, picks) == r);
        assert(m.to_multiset() == b.to_multiset().insert(b[j]).remove(b[i]));
        assert(m[j] == b[j]);
        assert(r.to_multiset() == m.to_multiset().insert(b[i]).remove(b[j]));
        let ms = b.to_multiset();
        assert(b.contains(b[i]));
        assert(b.contains(b[j]));
        assert(ms.count(b[i]) > 0) by {
            broadcast use vstd::seq_lib::group_to_multiset_ensures;
        }
        assert(ms.count(b[j]) > 0) by {
            broadcast use vstd::seq_lib::group_to_multiset_ensures;
        }
        assert(r.to_multiset() =~= ms) by {
            broadcast use vstd::multiset::group_multiset_axioms;
        }
    }
}

/// Exchanges, for each `k` in order, the item at position `k` with the item
/// at position `picks[k]`.
pub fn apply_swaps<T>(v: &mut Vec<T>, picks: &Vec<usize>)
    requires
        picks.len() <= old(v).len(),
        forall|k: int| 0 <= k < picks.len() ==> picks[k] < old(v).len(),
    ensures
        final(v)@ == swaps_spec(old(v)@, picks@),
{
    let n = v.len();
    let mut k: usize = 0;
    while k < picks.len()
        invariant
            n == v.len(),
            picks.len() <= n,
            forall|m: int| 0 <= m < picks.len() ==> picks[m] < n,
            k <= picks.len(),
            v@ == swaps_spec(old(v)@, picks@.subrange(0, k as int)),
        decreases picks.len() - k,
    {
        swap_items(v, k, picks[k]);
        proof {
            let p = picks@.subrange(0, k + 1);
            assert(p.drop_last() =~= picks@.subrange(0, k as int));
        }
        k = k + 1;
    }
    assert(picks@.subrange(0, picks.len() as int) =~= picks@);
}

/// A shuffle of `s` in the manner of this library: `len / 2` exchanges,
/// the `k`-th between position `k` and a position chosen by `picks[k]`.
pub open spec fn is_shuffle_of<T>(r: Seq<T>, s: Seq<T>) -> bool {
    exists|picks: Seq<usize>|
        picks.len() == s.len() / 2 && (forall|k: int| 0 <= k < picks.len() ==> picks[k] < s.len())
            && r == swaps_spec(s, picks)
}

/// Shuffles `v` in place with `len / 2` random exchanges.
pub fn shuffle<T>(v: &mut Vec<T>)
    ensures
        is_shuffle_of(final(v)@, old(v)@),
        final(v)@.to_multiset() == old(v)@.to_multiset(),
        final(v)@.len() == old(v)@.len(),
        exists|picks: Seq<usize>|
            picks.len() == old(v)@.len() / 2 && (forall|k: int|
                0 <= k < picks.len() ==> picks[k] < old(v)@.len() && drawn_below(
                    old(v)@.len() as usize,
                    #[trigger] picks[k],
                )) && final(v)@ == swaps_spec(old(v)@, picks),
{
    let n = v.len();
    let tries = n / 2;
    let mut picks: Vec<usize> = Vec::new();
    let mut k: usize = 0;
    while k < tries
        invariant
            tries == n / 2,
            k <= tries,
            picks.len() == k,
            forall|m: int| 0 <= m < k ==> picks[m] < n && drawn_below(n, #[trigger] picks[m]),
        decreases tries - k,
    {
        picks.push(random_below(n));
        k = k + 1;
    }
    let ghost before = v@;
    apply_swaps(v, &picks);
    proof {
        lemma_swaps_len(before, picks@);
        assert(is_shuffle_of(v@, before));
    }
}

/// A shuffle keeps exactly the items it was given: for every sequence `s`
/// and every admissible choice of exchanges, the result holds each item as
/// often as `s` does.
pub proof fn law_shuffle_keeps_items<T>(r: Seq<T>, s: Seq<T>)
    requires
        is_shuffle_of(r, s),
    ensures
        r.to_multiset() == s.to_multiset(),
        r.len() == s.len(),
{
    let picks = choose|picks: Seq<usize>|
        picks.len() == s.len() / 2 && (forall|k: int| 0 <= k < picks.len() ==> picks[k] < s.len())
            && r == swaps_spec(s, picks);
    lemma_swaps_len(s, picks);
}

/// An identifier spells its draws one for one, and different draws give
/// different characters: the alphabet has 64 distinct symbols, so two
/// identifiers built from different draws differ where the draws differ.
pub proof fn law_id_spells_its_draws(picks: Seq<usize>)
    requires
        forall|k: int| 0 <= k < picks.len() ==> picks[k] < 64,
    ensures
        id_from_values(picks).len() == picks.len(),
        forall|k: int|
            0 <= k < picks.len() ==> is_id_symbol(#[trigger] id_from_values(picks)[k]),
        forall|k: int, m: int|
            0 <= k < picks.len() && 0 <= m < picks.len() && picks[k] != picks[m] ==> #[trigger] id_from_values(picks)[k]
                != #[trigger] id_from_values(picks)[m],
{
    let id = id_from_values(picks);
    assert forall|k: int| 0 <= k < picks.len() implies is_id_symbol(#[trigger] id[k]) by {
        assert(id[k] == id_symbol(picks[k] as int));
    }
    assert forall|k: int, m: int|
        0 <= k < picks.len() && 0 <= m < picks.len() && picks[k] != picks[m] implies #[trigger] id[k] != #[trigger] id[m] by {
        assert(id[k] == id_symbol(picks[k] as int));
        assert(id[m] == id_symbol(picks[m] as int));
    }
}

} // verus!

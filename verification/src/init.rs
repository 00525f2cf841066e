//! Board setup: turning the submitted passwords and hint words into a fully
//! dealt board.  The dictionary extraction and transposition are
//! deterministic; target assignment and knowledge distribution draw on a
//! shuffle and are verified for every order it can produce.

use vstd::multiset::Multiset;
use vstd::prelude::*;

use crate::assoc::{
    alist_at, alist_has_key, alist_key_index, alist_keys, alist_no_dup_keys, alist_vals,
    lemma_alist_at_index, lemma_alist_has_key_keys, lemma_alist_keys_no_duplicates,
    lemma_alist_no_dup_from_keys,
};
use crate::model::{owned_hints, BoardState, Hint, HintId, Player, PlayerId, PlayerKnowledges};

verus! {

/// Everything the dealing step needs: one entry per player, in registration
/// order, plus the number of hints each player must have submitted.
pub struct InitBoard {
    pub players: Vec<(PlayerId, InitPlayer)>,
    pub hints_num: usize,
}

/// One player's submission: a display credential and the hint words.
pub struct InitPlayer {
    pub password: String,
    pub hints: Vec<String>,
}

/// Mathematical content of an [`InitPlayer`].
#[verifier::ext_equal]
pub struct InitPlayerView {
    pub password: String,
    pub hints: Seq<String>,
}

impl View for InitPlayer {
    type V = InitPlayerView;

    open spec fn view(&self) -> InitPlayerView {
        InitPlayerView { password: self.password, hints: self.hints@ }
    }
}

impl Clone for InitPlayer {
    fn clone(&self) -> (r: Self)
        ensures
            r@ == self@,
    {
        let mut hints: Vec<String> = Vec::new();
        let n = self.hints.len();
        let mut i: usize = 0;
        while i < n
            invariant
                n == self.hints@.len(),
                i <= n,
                hints@ == self.hints@.subrange(0, i as int),
            decreases n - i,
        {
            hints.push(self.hints[i].clone());
            proof {
                assert(hints@ =~= self.hints@.subrange(0, i + 1));
            }
            i = i + 1;
        }
        let r = InitPlayer { password: self.password.clone(), hints };
        proof {
            assert(r@.hints =~= self@.hints);
            assert(r@ =~= self@);
        }
        r
    }
}

/// A reason the dealing step rejects its input before any state is produced.
#[derive(PartialEq, Eq, Structural, Clone, Copy, Debug)]
pub enum SetupError {
    /// Fewer than two participants: no fixed-point-free assignment exists.
    TooFewPlayers,
    /// The game requires at least one hint per player.
    NoHints,
    /// Some player submitted a number of hints other than `hints_num`.
    WrongHintCount,
    /// A player identifier was registered twice.
    DuplicatePlayer,
}

/// All items of all entries, flattened in entry order.
pub open spec fn flat_items<K, ItemT>(s: Seq<(K, Vec<ItemT>)>) -> Seq<ItemT>
    decreases s.len(),
{
    if s.len() == 0 {
        Seq::empty()
    } else {
        flat_items(s.drop_last()) + s.last().1@
    }
}

/// How many items stand before entry `i` in the flattened order.
pub open spec fn items_before<K, ItemT>(s: Seq<(K, Vec<ItemT>)>, i: int) -> int {
    flat_items(s.subrange(0, i)).len() as int
}

proof fn lemma_flat_items_push<K, ItemT>(s: Seq<(K, Vec<ItemT>)>, e: (K, Vec<ItemT>))
    ensures
        flat_items(s.push(e)) == flat_items(s) + e.1@,
{
    assert(s.push(e).drop_last() =~= s);
    assert(flat_items(s.push(e)) == flat_items(s.push(e).drop_last()) + e.1@);
}

/// Transposes a rectangular table: row `i` of the result collects the `i`-th
/// item of every input row.
pub fn cross_2d_vec<T: Copy>(vec: &Vec<Vec<T>>, inner_len: usize) -> (r: Vec<Vec<T>>)
    requires
        forall|j: int| 0 <= j < vec@.len() ==> (#[trigger] vec@[j])@.len() == inner_len,
    ensures
        r@.len() == inner_len,
        forall|i: int| 0 <= i < inner_len ==> (#[trigger] r@[i])@.len() == vec@.len(),
        forall|i: int, j: int|
            0 <= i < inner_len && 0 <= j < vec@.len() ==> (#[trigger] r@[i]@[j]) == vec@[j]@[i],
{
    let mut r: Vec<Vec<T>> = Vec::new();
    let mut i: usize = 0;
    while i < inner_len
        invariant
            i <= inner_len,
            forall|j: int| 0 <= j < vec@.len() ==> (#[trigger] vec@[j])@.len() == inner_len,
            r@.len() == i,
            forall|k: int| 0 <= k < i ==> (#[trigger] r@[k])@.len() == vec@.len(),
            forall|k: int, j: int|
                0 <= k < i && 0 <= j < vec@.len() ==> (#[trigger] r@[k]@[j]) == vec@[j]@[k],
        decreases inner_len - i,
    {
        let mut row: Vec<T> = Vec::new();
        let n = vec.len();
        let mut j: usize = 0;
        while j < n
            invariant
                n == vec@.len(),
                j <= n,
                i < inner_len,
                forall|jj: int| 0 <= jj < vec@.len() ==> (#[trigger] vec@[jj])@.len() == inner_len,
                row@.len() == j,
                forall|jj: int| 0 <= jj < j ==> (#[trigger] row@[jj]) == vec@[jj]@[i as int],
            decreases n - j,
        {
            row.push(vec[j][i]);
            j = j + 1;
        }
        r.push(row);
        i = i + 1;
    }
    r
}

/// Assigns fresh, monotonically increasing identifiers to every submitted
/// item, entry-major in input order, and returns the resulting dictionary
/// together with each entry's identifier list.
pub fn extract_dictionary<K, ItemT>(inputs: Vec<(K, Vec<ItemT>)>) -> (r: (
    Vec<(HintId, ItemT)>,
    Vec<(K, Vec<HintId>)>,
))
    requires
        flat_items(inputs@).len() <= usize::MAX,
    ensures
        r.0@.len() == flat_items(inputs@).len(),
        forall|k: int|
            0 <= k < r.0@.len() ==> (#[trigger] r.0@[k]) == (
            HintId(k as usize),
            flat_items(inputs@)[k],
            ),
        r.1@.len() == inputs@.len(),
        forall|i: int| 0 <= i < inputs@.len() ==> (#[trigger] r.1@[i]).0 == inputs@[i].0,
        forall|i: int|
            0 <= i < inputs@.len() ==> (#[trigger] r.1@[i]).1@.len() == inputs@[i].1@.len(),
        forall|i: int, j: int|
            0 <= i < inputs@.len() && 0 <= j < inputs@[i].1@.len() ==> (#[trigger] r.1@[i].1@[j])
                == HintId((items_before(inputs@, i) + j) as usize),
        flat_items(r.1@).len() == flat_items(inputs@).len(),
        forall|k: int|
            0 <= k < flat_items(r.1@).len() ==> (#[trigger] flat_items(r.1@)[k]) == HintId(
                k as usize,
            ),
{
    let ghost orig = inputs@;
    let mut inputs = inputs;
    let mut dictionary: Vec<(HintId, ItemT)> = Vec::new();
    let mut lists: Vec<(K, Vec<HintId>)> = Vec::new();
    let ghost mut done: int = 0;
    proof {
        assert(orig.subrange(0, 0) =~= Seq::<(K, Vec<ItemT>)>::empty());
        assert(inputs@ =~= orig.subrange(0, orig.len() as int));
    }
    while inputs.len() > 0
        invariant
            0 <= done <= orig.len(),
            inputs@ == orig.subrange(done, orig.len() as int),
            flat_items(orig).len() <= usize::MAX,
            dictionary@.len() == items_before(orig, done),
            forall|k: int|
                0 <= k < dictionary@.len() ==> (#[trigger] dictionary@[k]) == (
                HintId(k as usize),
                flat_items(orig.subrange(0, done))[k],
                ),
            lists@.len() == done,
            forall|i: int| 0 <= i < done ==> (#[trigger] lists@[i]).0 == orig[i].0,
            forall|i: int| 0 <= i < done ==> (#[trigger] lists@[i]).1@.len() == orig[i].1@.len(),
            forall|i: int, j: int|
                0 <= i < done && 0 <= j < orig[i].1@.len() ==> (#[trigger] lists@[i].1@[j])
                    == HintId((items_before(orig, i) + j) as usize),
            flat_items(lists@).len() == dictionary@.len(),
            forall|k: int|
                0 <= k < flat_items(lists@).len() ==> (#[trigger] flat_items(lists@)[k]) == HintId(
                    k as usize,
                ),
        decreases inputs@.len(),
    {
        let (key, mut items) = inputs.remove(0);
        let ghost items0 = items@;
        let ghost base = dictionary@.len() as int;
        proof {
            assert(orig.subrange(done, orig.len() as int)[0] == orig[done]);
            assert(items0 == orig[done].1@);
            lemma_flat_items_prefix(orig, done);
        }
        let mut ids: Vec<HintId> = Vec::new();
        while items.len() > 0
            invariant
                0 <= base,
                base + items0.len() <= usize::MAX,
                items@ =~= items0.subrange(ids@.len() as int, items0.len() as int),
                ids@.len() <= items0.len(),
                dictionary@.len() == base + ids@.len(),
                forall|k: int|
                    0 <= k < base ==> (#[trigger] dictionary@[k]) == (
                    HintId(k as usize),
                    flat_items(orig.subrange(0, done))[k],
                    ),
                forall|k: int|
                    base <= k < dictionary@.len() ==> (#[trigger] dictionary@[k]) == (
                    HintId(k as usize),
                    items0[k - base],
                    ),
                forall|j: int|
                    0 <= j < ids@.len() ==> (#[trigger] ids@[j]) == HintId((base + j) as usize),
            decreases items@.len(),
        {
            let item = items.remove(0);
            let id = HintId(dictionary.len());
            dictionary.push((id, item));
            ids.push(id);
        }
        let ghost lists_before = lists@;
        lists.push((key, ids));
        proof {
            lemma_flat_items_push(lists_before, lists@.last());
            assert(flat_items(lists@) == flat_items(lists_before) + lists@.last().1@);
            assert(orig.subrange(0, done + 1).drop_last() =~= orig.subrange(0, done));
            assert(flat_items(orig.subrange(0, done + 1)) == flat_items(orig.subrange(0, done))
                + orig[done].1@);
            assert(inputs@ =~= orig.subrange(done + 1, orig.len() as int));
            done = done + 1;
        }
    }
    proof {
        assert(done == orig.len());
        assert(orig.subrange(0, orig.len() as int) =~= orig);
    }
    (dictionary, lists)
}

/// The knowledge granted to one player, the true hint first.
pub open spec fn knowledge_seq(k: PlayerKnowledges) -> Seq<HintId> {
    seq![k.target] + k.others@
}

/// Every hint handed out as knowledge, player-major.
pub open spec fn all_knowledge(s: Seq<(PlayerId, PlayerKnowledges)>) -> Seq<HintId>
    decreases s.len(),
{
    if s.len() == 0 {
        Seq::empty()
    } else {
        all_knowledge(s.drop_last()) + knowledge_seq(s.last().1)
    }
}

/// The handed-out knowledge carries the same multiset as its rows seen as a
/// grid.
proof fn lemma_all_knowledge_rows(s: Seq<(PlayerId, PlayerKnowledges)>)
    ensures
        all_knowledge(s).to_multiset() == crate::perm::rows_multiset(
            s.map_values(|e: (PlayerId, PlayerKnowledges)| knowledge_seq(e.1)),
        ),
    decreases s.len(),
{
    broadcast use vstd::seq_lib::group_to_multiset_ensures;

    let rows = s.map_values(|e: (PlayerId, PlayerKnowledges)| knowledge_seq(e.1));
    if s.len() == 0 {
        assert forall|x: HintId| all_knowledge(s).to_multiset().count(x) == 0 by {
            assert(!all_knowledge(s).contains(x));
        }
        assert(all_knowledge(s).to_multiset() =~= Multiset::<HintId>::empty());
    } else {
        let dl = s.drop_last();
        lemma_all_knowledge_rows(dl);
        assert(rows.drop_last() =~= dl.map_values(
            |e: (PlayerId, PlayerKnowledges)| knowledge_seq(e.1),
        ));
        vstd::seq_lib::lemma_multiset_commutative(all_knowledge(dl), knowledge_seq(s.last().1));
        assert(rows.last() == knowledge_seq(s.last().1));
    }
}

/// One round's grants: looking a duplicate-free value column up once per
/// player, through a bijection of targets over the same players, hands every
/// value of the round out exactly once.
proof fn lemma_grants_cover_round<V>(
    ids: Seq<PlayerId>,
    targets: Seq<(PlayerId, PlayerId)>,
    round: Seq<(PlayerId, V)>,
    grants: Seq<V>,
)
    requires
        grants.len() == ids.len(),
        ids.no_duplicates(),
        alist_no_dup_keys(targets),
        alist_no_dup_keys(round),
        alist_keys(targets).to_multiset() == ids.to_multiset(),
        alist_vals(targets).to_multiset() == alist_keys(targets).to_multiset(),
        alist_keys(round).to_multiset() == ids.to_multiset(),
        alist_vals(round).no_duplicates(),
        forall|i: int|
            0 <= i < grants.len() ==> #[trigger] grants[i] == alist_at(
                round,
                alist_at(targets, ids[i]),
            ),
    ensures
        grants.to_multiset() == alist_vals(round).to_multiset(),
{
    let n = ids.len() as int;
    lemma_alist_keys_no_duplicates(targets);
    lemma_alist_keys_no_duplicates(round);
    crate::perm::lemma_no_duplicates_to_multiset(alist_keys(targets), alist_vals(targets));
    // Each player's target, and where it stands in `targets` and in `round`.
    assert forall|i: int| 0 <= i < n implies {
        &&& alist_has_key(targets, ids[i])
        &&& alist_has_key(round, alist_at(targets, ids[i]))
    } by {
        assert(ids.contains(ids[i])) by {
            assert(ids[i] == ids[i]);
        }
        crate::perm::lemma_contains_to_multiset(
            ids,
            alist_keys(targets),
            ids[i],
        );
        lemma_alist_has_key_keys(targets, ids[i]);
        let k = alist_key_index(targets, ids[i]);
        assert(alist_at(targets, ids[i]) == targets[k].1);
        assert(alist_vals(targets).contains(targets[k].1)) by {
            assert(alist_vals(targets)[k] == targets[k].1);
        }
        crate::perm::lemma_contains_to_multiset(
            alist_vals(targets),
            alist_keys(targets),
            targets[k].1,
        );
        crate::perm::lemma_contains_to_multiset(
            alist_keys(targets),
            ids,
            targets[k].1,
        );
        crate::perm::lemma_contains_to_multiset(
            ids,
            alist_keys(round),
            targets[k].1,
        );
        lemma_alist_has_key_keys(round, targets[k].1);
    }
    // Distinct players reach distinct targets, hence distinct grants.
    assert forall|i1: int, i2: int| 0 <= i1 < n && 0 <= i2 < n && i1 != i2 implies grants[i1]
        != grants[i2] by {
        let p1 = ids[i1];
        let p2 = ids[i2];
        assert(p1 != p2);
        let k1 = alist_key_index(targets, p1);
        let k2 = alist_key_index(targets, p2);
        assert(targets[k1].0 == p1 && targets[k2].0 == p2);
        assert(k1 != k2);
        assert(alist_vals(targets)[k1] == targets[k1].1);
        assert(alist_vals(targets)[k2] == targets[k2].1);
        assert(targets[k1].1 != targets[k2].1);
        let m1 = alist_key_index(round, targets[k1].1);
        let m2 = alist_key_index(round, targets[k2].1);
        assert(round[m1].0 == targets[k1].1 && round[m2].0 == targets[k2].1);
        assert(m1 != m2);
        assert(alist_vals(round)[m1] == round[m1].1);
        assert(alist_vals(round)[m2] == round[m2].1);
        assert(grants[i1] == round[m1].1);
        assert(grants[i2] == round[m2].1);
    }
    assert(grants.no_duplicates());
    // Same elements in both directions.
    assert forall|x: V| grants.contains(x) implies alist_vals(round).contains(x) by {
        let i = choose|i: int| 0 <= i < grants.len() && grants[i] == x;
        let m = alist_key_index(round, alist_at(targets, ids[i]));
        assert(alist_vals(round)[m] == round[m].1);
    }
    assert forall|x: V| alist_vals(round).contains(x) implies grants.contains(x) by {
        let m = choose|m: int| 0 <= m < alist_vals(round).len() && alist_vals(round)[m] == x;
        assert(round[m].1 == x);
        let q = round[m].0;
        assert(alist_keys(round)[m] == q);
        assert(alist_keys(round).contains(q));
        crate::perm::lemma_contains_to_multiset(alist_keys(round), ids, q);
        crate::perm::lemma_contains_to_multiset(ids, alist_keys(targets), q);
        crate::perm::lemma_contains_to_multiset(alist_keys(targets), alist_vals(targets), q);
        let k = choose|k: int| 0 <= k < alist_vals(targets).len() && alist_vals(targets)[k] == q;
        assert(targets[k].1 == q);
        let p = targets[k].0;
        assert(alist_keys(targets)[k] == p);
        assert(alist_keys(targets).contains(p));
        crate::perm::lemma_contains_to_multiset(alist_keys(targets), ids, p);
        let i0 = choose|i0: int|
            0 <= i0 < ids.len() && ids[i0] == p;
        assert(ids[i0] == p);
        lemma_alist_at_index(targets, k);
        assert(alist_at(targets, p) == q);
        lemma_alist_at_index(round, m);
        assert(alist_at(round, q) == round[m].1);
        assert(grants[i0] == x);
    }
    crate::perm::lemma_same_elements_to_multiset(grants, alist_vals(round));
}

/// Pairs each player's own hints with their identifier and shuffles each
/// player's list independently.
fn shuffle_own_pairs(
    players: &Vec<(PlayerId, Vec<HintId>)>,
    rng: &mut rand::rngs::ThreadRng,
) -> (r: Vec<Vec<(PlayerId, HintId)>>)
    ensures
        r@.len() == players@.len(),
        forall|j: int| 0 <= j < r@.len() ==> (#[trigger] r@[j])@.len() == players@[j].1@.len(),
        forall|j: int, k: int|
            0 <= j < r@.len() && 0 <= k < r@[j]@.len() ==> (#[trigger] r@[j]@[k]).0
                == players@[j].0,
        forall|j: int|
            0 <= j < r@.len() ==> alist_vals((#[trigger] r@[j])@).to_multiset()
                == players@[j].1@.to_multiset(),
{
    let mut r: Vec<Vec<(PlayerId, HintId)>> = Vec::new();
    let n = players.len();
    let mut j: usize = 0;
    while j < n
        invariant
            n == players@.len(),
            j <= n,
            r@.len() == j,
            forall|jj: int| 0 <= jj < j ==> (#[trigger] r@[jj])@.len() == players@[jj].1@.len(),
            forall|jj: int, k: int|
                0 <= jj < j && 0 <= k < r@[jj]@.len() ==> (#[trigger] r@[jj]@[k]).0
                    == players@[jj].0,
            forall|jj: int|
                0 <= jj < j ==> alist_vals((#[trigger] r@[jj])@).to_multiset()
                    == players@[jj].1@.to_multiset(),
        decreases n - j,
    {
        let p = players[j].0;
        let m = players[j].1.len();
        let mut pairs: Vec<(PlayerId, HintId)> = Vec::new();
        let mut k: usize = 0;
        while k < m
            invariant
                m == players@[j as int].1@.len(),
                j < n == players@.len(),
                k <= m,
                p == players@[j as int].0,
                pairs@.len() == k,
                forall|kk: int|
                    0 <= kk < k ==> (#[trigger] pairs@[kk]) == (p, players@[j as int].1@[kk]),
            decreases m - k,
        {
            pairs.push((p, players[j].1[k]));
            k = k + 1;
        }
        let ghost pairs0 = pairs@;
        crate::rng::shuffle(&mut pairs, rng);
        proof {
            let valf = |e: (PlayerId, HintId)| e.1;
            crate::perm::lemma_map_values_to_multiset(pairs@, pairs0, valf);
            assert(alist_vals(pairs@) == pairs@.map_values(valf));
            assert(alist_vals(pairs0) == pairs0.map_values(valf));
            assert(alist_vals(pairs0) =~= players@[j as int].1@);
            assert forall|k: int| 0 <= k < pairs@.len() implies (#[trigger] pairs@[k]).0 == p by {
                assert(pairs@.contains(pairs@[k]));
                crate::perm::lemma_contains_to_multiset(pairs@, pairs0, pairs@[k]);
            }
        }
        r.push(pairs);
        j = j + 1;
    }
    r
}

/// Maps each entry's key to the value of its cyclic predecessor.
fn shift_map<V: Copy>(pairs: &Vec<(PlayerId, V)>) -> (r: Vec<(PlayerId, V)>)
    requires
        pairs@.len() >= 1,
    ensures
        r@.len() == pairs@.len(),
        forall|i: int| 0 <= i < r@.len() ==> (#[trigger] r@[i]).0 == pairs@[i].0,
        forall|i: int|
            0 < i < r@.len() ==> (#[trigger] r@[i]).1 == pairs@[i - 1].1,
        r@[0].1 == pairs@[pairs@.len() - 1].1,
{
    let n = pairs.len();
    let mut r: Vec<(PlayerId, V)> = Vec::new();
    let mut i: usize = 0;
    while i < n
        invariant
            n == pairs@.len(),
            1 <= n,
            i <= n,
            r@.len() == i,
            forall|k: int| 0 <= k < i ==> (#[trigger] r@[k]).0 == pairs@[k].0,
            forall|k: int| 0 < k < i ==> (#[trigger] r@[k]).1 == pairs@[k - 1].1,
            i > 0 ==> r@[0].1 == pairs@[n - 1].1,
        decreases n - i,
    {
        let src = if i == 0 {
            n - 1
        } else {
            i - 1
        };
        r.push((pairs[i].0, pairs[src].1));
        i = i + 1;
    }
    r
}

/// Some entry of `orig` with a key other than `e`'s carries `e`'s value.
pub open spec fn value_from_other_key<V>(orig: Seq<(PlayerId, V)>, e: (PlayerId, V)) -> bool {
    exists|j: int|
        #![trigger orig[j]]
        0 <= j < orig.len() && e.1 == orig[j].1 && orig[j].0 != e.0
}

/// Every entry of `r` holds a value that some entry of `orig` with a
/// different key brought in.
pub open spec fn deranged_from<V>(orig: Seq<(PlayerId, V)>, r: Seq<(PlayerId, V)>) -> bool {
    forall|i: int| 0 <= i < r.len() ==> value_from_other_key(orig, #[trigger] r[i])
}

/// Shuffles the entries, then maps each key to the value of its cyclic
/// predecessor in the shuffled order.  With distinct keys and at least two
/// entries, every key is assigned a value that some entry with a *different*
/// key brought in, while the keys and the values are each kept as a whole.
pub fn shuffle_shift<V: Copy>(
    pairs: Vec<(PlayerId, V)>,
    rng: &mut rand::rngs::ThreadRng,
) -> (r: Vec<(PlayerId, V)>)
    requires
        pairs@.len() >= 2,
        alist_keys(pairs@).no_duplicates(),
    ensures
        r@.len() == pairs@.len(),
        alist_keys(r@).to_multiset() == alist_keys(pairs@).to_multiset(),
        alist_vals(r@).to_multiset() == alist_vals(pairs@).to_multiset(),
        alist_keys(r@).no_duplicates(),
        deranged_from(pairs@, r@),
{
    let ghost orig = pairs@;
    let mut pairs = pairs;
    crate::rng::shuffle(&mut pairs, rng);
    let ghost shuf = pairs@;
    proof {
        let keyf = |e: (PlayerId, V)| e.0;
        let valf = |e: (PlayerId, V)| e.1;
        crate::perm::lemma_map_values_to_multiset(shuf, orig, keyf);
        assert(alist_keys(shuf) == shuf.map_values(keyf));
        assert(alist_keys(orig) == orig.map_values(keyf));
        crate::perm::lemma_no_duplicates_to_multiset(alist_keys(orig), alist_keys(shuf));
    }
    let r = shift_map(&pairs);
    proof {
        let n = shuf.len() as int;
        assert(alist_keys(r@) =~= alist_keys(shuf));
        assert(alist_vals(r@) =~= alist_vals(shuf).subrange(n - 1, n) + alist_vals(
            shuf,
        ).drop_last()) by {
            assert forall|i: int| 0 <= i < n implies alist_vals(r@)[i] == (alist_vals(
                shuf,
            ).subrange(n - 1, n) + alist_vals(shuf).drop_last())[i] by {
                assert(alist_vals(r@)[i] == r@[i].1);
                if i == 0 {
                    assert(r@[0].1 == shuf[n - 1].1);
                } else {
                    assert(r@[i].1 == shuf[i - 1].1);
                }
            }
        }
        crate::perm::lemma_rotate_to_multiset(alist_vals(shuf));
        let valf = |e: (PlayerId, V)| e.1;
        crate::perm::lemma_map_values_to_multiset(shuf, orig, valf);
        assert(alist_vals(shuf) == shuf.map_values(valf));
        assert(alist_vals(orig) == orig.map_values(valf));
        assert forall|i: int| 0 <= i < r@.len() implies value_from_other_key(
            orig,
            #[trigger] r@[i],
        ) by {
            let src = if i == 0 {
                n - 1
            } else {
                i - 1
            };
            assert(r@[i].1 == shuf[src].1);
            assert(r@[i].0 == shuf[i].0);
            assert(alist_keys(shuf)[i] == shuf[i].0);
            assert(alist_keys(shuf)[src] == shuf[src].0);
            assert(shuf[src].0 != shuf[i].0);
            assert(shuf.contains(shuf[src]));
            crate::perm::lemma_contains_to_multiset(shuf, orig, shuf[src]);
            let j = choose|j: int| 0 <= j < orig.len() && (#[trigger] orig[j]) == shuf[src];
            assert(0 <= j < orig.len() && r@[i].1 == orig[j].1 && orig[j].0 != r@[i].0);
        }
    }
    r
}

/// Deals knowledge: shuffles every player's own hints, transposes the lists
/// into rounds, grants each player the round-0 hint of their target as the
/// one true fact, and re-deranges every later round so that the remaining
/// grants provably belong to someone other than the target.  Every submitted
/// hint is handed out exactly once.
#[verifier::loop_isolation(false)]
#[verifier::rlimit(40)]
pub fn hand_out_hints(
    players: &Vec<(PlayerId, Vec<HintId>)>,
    hints_num: usize,
    player_2_target: &Vec<(PlayerId, PlayerId)>,
    rng: &mut rand::rngs::ThreadRng,
) -> (r: Vec<(PlayerId, PlayerKnowledges)>)
    requires
        players@.len() >= 2,
        hints_num >= 1,
        alist_no_dup_keys(players@),
        forall|i: int| 0 <= i < players@.len() ==> (#[trigger] players@[i]).1@.len() == hints_num,
        flat_items(players@).no_duplicates(),
        alist_no_dup_keys(player_2_target@),
        alist_keys(player_2_target@).to_multiset() == alist_keys(players@).to_multiset(),
        alist_vals(player_2_target@).to_multiset() == alist_keys(player_2_target@).to_multiset(),
    ensures
        r@.len() == players@.len(),
        forall|i: int| 0 <= i < r@.len() ==> (#[trigger] r@[i]).0 == players@[i].0,
        forall|i: int| 0 <= i < r@.len() ==> (#[trigger] r@[i]).1.others@.len() == hints_num - 1,
        forall|i: int|
            0 <= i < r@.len() ==> alist_at(
                players@,
                alist_at(player_2_target@, (#[trigger] r@[i]).0),
            )@.contains(r@[i].1.target),
        forall|i: int, k: int|
            #![trigger r@[i].1.others@[k]]
            0 <= i < r@.len() && 0 <= k < r@[i].1.others@.len() ==> !alist_at(
                players@,
                alist_at(player_2_target@, r@[i].0),
            )@.contains(r@[i].1.others@[k]),
        all_knowledge(r@).to_multiset() == flat_items(players@).to_multiset(),
{
    let n = players.len();
    let converted = shuffle_own_pairs(players, rng);
    let mut rounds = cross_2d_vec(&converted, hints_num);
    let ghost rounds0 = rounds@;
    proof {
        assert forall|rr: int, j: int|
            0 <= rr < hints_num && 0 <= j < n implies (#[trigger] rounds0[rr]@[j]).0
            == players@[j].0 && players@[j].1@.contains(rounds0[rr]@[j].1) by {
            assert(rounds0[rr]@[j] == converted@[j]@[rr]);
            assert(alist_vals(converted@[j]@)[rr] == converted@[j]@[rr].1);
            assert(alist_vals(converted@[j]@).contains(converted@[j]@[rr].1));
            crate::perm::lemma_contains_to_multiset(
                alist_vals(converted@[j]@),
                players@[j].1@,
                converted@[j]@[rr].1,
            );
        }
        lemma_alist_keys_no_duplicates(players@);
        // Each round is keyed like the player list and its values are
        // pairwise distinct.
        assert forall|rr: int| 0 <= rr < hints_num implies alist_keys((#[trigger] rounds0[rr])@)
            =~= alist_keys(players@) && alist_no_dup_keys(rounds0[rr]@) && alist_vals(
            rounds0[rr]@,
        ).no_duplicates() by {
            assert forall|j: int| 0 <= j < n implies alist_keys(rounds0[rr]@)[j] == alist_keys(
                players@,
            )[j] by {
                assert(alist_keys(rounds0[rr]@)[j] == rounds0[rr]@[j].0);
            }
            assert(alist_keys(rounds0[rr]@) =~= alist_keys(players@));
            lemma_alist_no_dup_from_keys(rounds0[rr]@);
            assert forall|j1: int, j2: int|
                0 <= j1 < n && 0 <= j2 < n && j1 != j2 implies alist_vals(rounds0[rr]@)[j1]
                != alist_vals(rounds0[rr]@)[j2] by {
                assert(alist_vals(rounds0[rr]@)[j1] == rounds0[rr]@[j1].1);
                assert(alist_vals(rounds0[rr]@)[j2] == rounds0[rr]@[j2].1);
                lemma_flat_lists_disjoint(players@, j1, j2, rounds0[rr]@[j1].1);
            }
        }
    }
    let first = rounds.remove(0);
    let mut shifted: Vec<Vec<(PlayerId, HintId)>> = Vec::new();
    proof {
        assert(rounds@ =~= rounds0.subrange(1, hints_num as int));
    }
    while rounds.len() > 0
        invariant
            shifted@.len() + rounds@.len() + 1 == hints_num,
            rounds@ == rounds0.subrange(1 + shifted@.len() as int, hints_num as int),
            forall|rr: int|
                0 <= rr < shifted@.len() ==> (#[trigger] shifted@[rr])@.len() == n
                    && alist_keys(shifted@[rr]@).no_duplicates() && alist_keys(
                    shifted@[rr]@,
                ).to_multiset() == alist_keys(rounds0[rr + 1]@).to_multiset() && alist_vals(
                    shifted@[rr]@,
                ).to_multiset() == alist_vals(rounds0[rr + 1]@).to_multiset(),
            forall|rr: int|
                0 <= rr < shifted@.len() ==> deranged_from(
                    rounds0[rr + 1]@,
                    (#[trigger] shifted@[rr])@,
                ),
        decreases rounds@.len(),
    {
        let ghost idx: int = 1 + shifted@.len() as int;
        let round = rounds.remove(0);
        proof {
            assert(round@ == rounds0[idx]@);
            assert(rounds@ =~= rounds0.subrange(idx + 1, hints_num as int));
            assert(alist_keys(round@).no_duplicates());
        }
        let m = shuffle_shift(round, rng);
        proof {
            assert(deranged_from(rounds0[idx]@, m@));
        }
        shifted.push(m);
    }
    let ghost targets = player_2_target@;
    proof {
        assert(first@ == rounds0[0]@);
        assert(shifted@.len() == hints_num - 1);
        assert(alist_keys(first@) == alist_keys(players@));
        // Every player id is a key of the target map, and its target is in
        // turn a registered player.
        assert forall|p: PlayerId| alist_keys(players@).contains(p) implies alist_has_key(
            targets,
            p,
        ) && alist_keys(players@).contains(alist_at(targets, p)) by {
            crate::perm::lemma_contains_to_multiset(alist_keys(players@), alist_keys(targets), p);
            lemma_alist_has_key_keys(targets, p);
            let k = alist_key_index(targets, p);
            let t = alist_at(targets, p);
            assert(t == targets[k].1);
            assert(alist_vals(targets)[k] == targets[k].1);
            assert(alist_vals(targets).contains(t));
            crate::perm::lemma_contains_to_multiset(alist_vals(targets), alist_keys(targets), t);
            crate::perm::lemma_contains_to_multiset(alist_keys(targets), alist_keys(players@), t);
        }
    }
    let mut result: Vec<(PlayerId, PlayerKnowledges)> = Vec::new();
    let mut i: usize = 0;
    while i < n
        invariant
            i <= n,
            result@.len() == i,
            forall|ii: int| 0 <= ii < i ==> (#[trigger] result@[ii]).0 == players@[ii].0,
            forall|ii: int|
                0 <= ii < i ==> (#[trigger] result@[ii]).1.target == alist_at(
                    first@,
                    alist_at(targets, players@[ii].0),
                ),
            forall|ii: int|
                0 <= ii < i ==> (#[trigger] result@[ii]).1.others@.len() == hints_num - 1,
            forall|ii: int, rr: int|
                #![trigger result@[ii].1.others@[rr]]
                0 <= ii < i && 0 <= rr < hints_num - 1 ==> result@[ii].1.others@[rr] == alist_at(
                    shifted@[rr]@,
                    alist_at(targets, players@[ii].0),
                ),
        decreases n - i,
    {
        let p = players[i].0;
        proof {
            assert(alist_keys(players@)[i as int] == p);
            assert(alist_keys(players@).contains(p));
        }
        let t = match crate::assoc::alist_get(player_2_target, p) {
            Some(v) => *v,
            None => {
                proof {
                    assert(false);
                }
                vstd::pervasive::unreached()
            },
        };
        proof {
            assert(t == alist_at(targets, p));
            assert(alist_keys(players@).contains(t));
            lemma_alist_has_key_keys(first@, t);
            lemma_alist_no_dup_from_keys(first@);
        }
        let th = match crate::assoc::alist_get(&first, t) {
            Some(v) => *v,
            None => {
                proof {
                    assert(false);
                }
                vstd::pervasive::unreached()
            },
        };
        let mut others: Vec<HintId> = Vec::new();
        let rcount = shifted.len();
        let mut rr: usize = 0;
        while rr < rcount
            invariant
                rr <= rcount,
                rcount == hints_num - 1,
                t == alist_at(targets, players@[i as int].0),
                i < n,
                others@.len() == rr,
                forall|r2: int|
                    0 <= r2 < rr ==> (#[trigger] others@[r2]) == alist_at(shifted@[r2]@, t),
            decreases rcount - rr,
        {
            proof {
                assert(alist_keys(shifted@[rr as int]@).to_multiset() == alist_keys(
                    rounds0[rr + 1]@,
                ).to_multiset());
                crate::perm::lemma_contains_to_multiset(
                    alist_keys(players@),
                    alist_keys(shifted@[rr as int]@),
                    t,
                );
                lemma_alist_has_key_keys(shifted@[rr as int]@, t);
                lemma_alist_no_dup_from_keys(shifted@[rr as int]@);
            }
            let hr = match crate::assoc::alist_get(&shifted[rr], t) {
                Some(v) => *v,
                None => {
                    proof {
                        assert(false);
                    }
                    vstd::pervasive::unreached()
                },
            };
            others.push(hr);
            rr = rr + 1;
        }
        result.push((p, PlayerKnowledges { target: th, others }));
        i = i + 1;
    }
    proof {
        lemma_handout_correct(
            players@,
            targets,
            converted@,
            rounds0,
            first@,
            shifted@,
            result@,
            hints_num as int,
        );
    }
    result
}

/// From the recorded shape of the deal, concludes the three knowledge
/// invariants: truth, decoys, and one hand-out of every hint.
#[verifier::rlimit(60)]
proof fn lemma_handout_correct(
    players: Seq<(PlayerId, Vec<HintId>)>,
    targets: Seq<(PlayerId, PlayerId)>,
    converted: Seq<Vec<(PlayerId, HintId)>>,
    rounds0: Seq<Vec<(PlayerId, HintId)>>,
    first: Seq<(PlayerId, HintId)>,
    shifted: Seq<Vec<(PlayerId, HintId)>>,
    result: Seq<(PlayerId, PlayerKnowledges)>,
    hints_num: int,
)
    requires
        players.len() >= 2,
        hints_num >= 1,
        alist_no_dup_keys(players),
        flat_items(players).no_duplicates(),
        alist_no_dup_keys(targets),
        alist_keys(targets).to_multiset() == alist_keys(players).to_multiset(),
        alist_vals(targets).to_multiset() == alist_keys(targets).to_multiset(),
        converted.len() == players.len(),
        forall|j: int| 0 <= j < converted.len() ==> (#[trigger] converted[j])@.len() == hints_num,
        forall|j: int|
            0 <= j < converted.len() ==> alist_vals((#[trigger] converted[j])@).to_multiset()
                == players[j].1@.to_multiset(),
        rounds0.len() == hints_num,
        forall|rr: int| 0 <= rr < hints_num ==> (#[trigger] rounds0[rr])@.len() == players.len(),
        forall|rr: int, j: int|
            #![trigger rounds0[rr]@[j]]
            0 <= rr < hints_num && 0 <= j < players.len() ==> rounds0[rr]@[j] == converted[j]@[rr]
                && rounds0[rr]@[j].0 == players[j].0 && players[j].1@.contains(rounds0[rr]@[j].1),
        first == rounds0[0]@,
        shifted.len() == hints_num - 1,
        forall|rr: int|
            0 <= rr < shifted.len() ==> (#[trigger] shifted[rr])@.len() == players.len()
                && alist_keys(shifted[rr]@).no_duplicates() && alist_keys(
                shifted[rr]@,
            ).to_multiset() == alist_keys(rounds0[rr + 1]@).to_multiset() && alist_vals(
                shifted[rr]@,
            ).to_multiset() == alist_vals(rounds0[rr + 1]@).to_multiset(),
        forall|rr: int|
            0 <= rr < shifted.len() ==> deranged_from(rounds0[rr + 1]@, (#[trigger] shifted[rr])@),
        result.len() == players.len(),
        forall|i: int| 0 <= i < result.len() ==> (#[trigger] result[i]).0 == players[i].0,
        forall|i: int|
            0 <= i < result.len() ==> (#[trigger] result[i]).1.target == alist_at(
                first,
                alist_at(targets, players[i].0),
            ),
        forall|i: int|
            0 <= i < result.len() ==> (#[trigger] result[i]).1.others@.len() == hints_num - 1,
        forall|i: int, rr: int|
            #![trigger result[i].1.others@[rr]]
            0 <= i < result.len() && 0 <= rr < hints_num - 1 ==> result[i].1.others@[rr]
                == alist_at(shifted[rr]@, alist_at(targets, players[i].0)),
    ensures
        forall|i: int|
            0 <= i < result.len() ==> alist_at(
                players,
                alist_at(targets, (#[trigger] result[i]).0),
            )@.contains(result[i].1.target),
        forall|i: int, k: int|
            #![trigger result[i].1.others@[k]]
            0 <= i < result.len() && 0 <= k < result[i].1.others@.len() ==> !alist_at(
                players,
                alist_at(targets, result[i].0),
            )@.contains(result[i].1.others@[k]),
        all_knowledge(result).to_multiset() == flat_items(players).to_multiset(),
{
    let n = players.len() as int;
    lemma_alist_keys_no_duplicates(players);
    // The rounds are keyed like the player list, with pairwise-distinct
    // values.
    assert forall|rr: int| 0 <= rr < hints_num implies alist_keys((#[trigger] rounds0[rr])@)
        =~= alist_keys(players) && alist_no_dup_keys(rounds0[rr]@) && alist_vals(
        rounds0[rr]@,
    ).no_duplicates() by {
        assert forall|j: int| 0 <= j < n implies alist_keys(rounds0[rr]@)[j] == alist_keys(
            players,
        )[j] by {
            assert(alist_keys(rounds0[rr]@)[j] == rounds0[rr]@[j].0);
        }
        assert(alist_keys(rounds0[rr]@) =~= alist_keys(players));
        lemma_alist_no_dup_from_keys(rounds0[rr]@);
        assert forall|j1: int, j2: int|
            0 <= j1 < n && 0 <= j2 < n && j1 != j2 implies alist_vals(rounds0[rr]@)[j1]
            != alist_vals(rounds0[rr]@)[j2] by {
            assert(alist_vals(rounds0[rr]@)[j1] == rounds0[rr]@[j1].1);
            assert(alist_vals(rounds0[rr]@)[j2] == rounds0[rr]@[j2].1);
            lemma_flat_lists_disjoint(players, j1, j2, rounds0[rr]@[j1].1);
        }
    }
    // Where each player's target stands.
    assert forall|i: int| 0 <= i < n implies {
        &&& alist_has_key(targets, players[i].0)
        &&& alist_keys(players).contains(alist_at(targets, players[i].0))
    } by {
        let p = players[i].0;
        assert(alist_keys(players)[i] == p);
        crate::perm::lemma_contains_to_multiset(alist_keys(players), alist_keys(targets), p);
        lemma_alist_has_key_keys(targets, p);
        let k = alist_key_index(targets, p);
        let t = alist_at(targets, p);
        assert(t == targets[k].1);
        assert(alist_vals(targets)[k] == t);
        assert(alist_vals(targets).contains(t));
        crate::perm::lemma_contains_to_multiset(alist_vals(targets), alist_keys(targets), t);
        crate::perm::lemma_contains_to_multiset(alist_keys(targets), alist_keys(players), t);
    }
    // Truth: the granted round-0 hint is owned by the target.
    assert forall|i: int| 0 <= i < result.len() implies alist_at(
        players,
        alist_at(targets, (#[trigger] result[i]).0),
    )@.contains(result[i].1.target) by {
        let p = players[i].0;
        let t = alist_at(targets, p);
        let jt = choose|j: int| 0 <= j < alist_keys(players).len() && alist_keys(players)[j] == t;
        assert(players[jt].0 == t);
        assert(first[jt].0 == t);
        lemma_alist_at_index(first, jt);
        lemma_alist_at_index(players, jt);
        assert(result[i].1.target == first[jt].1);
        assert(players[jt].1@.contains(first[jt].1));
    }
    // Decoys: a later round's grant comes from a pair whose key is not the
    // target, so the target does not own it.
    assert forall|i: int, k: int|
        #![trigger result[i].1.others@[k]]
        0 <= i < result.len() && 0 <= k < result[i].1.others@.len() implies !alist_at(
        players,
        alist_at(targets, result[i].0),
    )@.contains(result[i].1.others@[k]) by {
        let p = players[i].0;
        let t = alist_at(targets, p);
        let jt = choose|j: int| 0 <= j < alist_keys(players).len() && alist_keys(players)[j] == t;
        assert(players[jt].0 == t);
        lemma_alist_at_index(players, jt);
        let h = result[i].1.others@[k];
        assert(h == alist_at(shifted[k]@, t));
        assert(alist_keys(rounds0[k + 1]@).to_multiset() == alist_keys(players).to_multiset());
        crate::perm::lemma_contains_to_multiset(
            alist_keys(players),
            alist_keys(shifted[k]@),
            t,
        );
        lemma_alist_has_key_keys(shifted[k]@, t);
        lemma_alist_no_dup_from_keys(shifted[k]@);
        let m = alist_key_index(shifted[k]@, t);
        assert(shifted[k]@[m].0 == t && h == shifted[k]@[m].1);
        assert(deranged_from(rounds0[k + 1]@, shifted[k]@));
        assert(value_from_other_key(rounds0[k + 1]@, shifted[k]@[m]));
        let j = choose|j: int|
            #![trigger rounds0[k + 1]@[j]]
            0 <= j < rounds0[k + 1]@.len() && shifted[k]@[m].1 == rounds0[k + 1]@[j].1
                && rounds0[k + 1]@[j].0 != shifted[k]@[m].0;
        assert(players[j].0 != t);
        assert(j != jt);
        assert(players[j].1@.contains(h));
        lemma_flat_lists_disjoint(players, j, jt, h);
    }
    // One hand-out of every hint: walk the multiset through the grids.
    let g_pl = players.map_values(|e: (PlayerId, Vec<HintId>)| e.1@);
    let g_col = Seq::new(n as nat, |j: int| alist_vals(converted[j]@));
    let g_round = Seq::new(hints_num as nat, |rr: int| alist_vals(rounds0[rr]@));
    let g_hand = Seq::new(
        hints_num as nat,
        |rr: int|
            Seq::new(
                n as nat,
                |i: int|
                    if rr == 0 {
                        result[i].1.target
                    } else {
                        result[i].1.others@[rr - 1]
                    },
            ),
    );
    let g_know = result.map_values(|e: (PlayerId, PlayerKnowledges)| knowledge_seq(e.1));
    lemma_flat_items_rows(players);
    assert forall|j: int| 0 <= j < n implies (#[trigger] g_pl[j]).to_multiset()
        == g_col[j].to_multiset() by {
        assert(g_pl[j] == players[j].1@);
        assert(g_col[j] == alist_vals(converted[j]@));
    }
    crate::perm::lemma_rows_multiset_pointwise(g_pl, g_col);
    assert forall|rr: int, j: int| 0 <= rr < hints_num && 0 <= j < n implies (#[trigger] g_round[rr][j]) == g_col[j][rr] by {
        assert(g_round[rr][j] == alist_vals(rounds0[rr]@)[j]);
        assert(alist_vals(rounds0[rr]@)[j] == rounds0[rr]@[j].1);
        assert(g_col[j][rr] == alist_vals(converted[j]@)[rr]);
        assert(alist_vals(converted[j]@)[rr] == converted[j]@[rr].1);
    }
    assert forall|j: int| 0 <= j < n implies (#[trigger] g_col[j]).len() == hints_num by {
        assert(g_col[j] == alist_vals(converted[j]@));
    }
    assert forall|rr: int| 0 <= rr < hints_num implies (#[trigger] g_round[rr]).len() == n by {
        assert(g_round[rr] == alist_vals(rounds0[rr]@));
    }
    crate::perm::lemma_transpose_rows_multiset(g_col, g_round, hints_num);
    // Per round, the grants are exactly the round's values.
    assert forall|rr: int| 0 <= rr < hints_num implies (#[trigger] g_hand[rr]).to_multiset()
        == g_round[rr].to_multiset() by {
        let grants = g_hand[rr];
        assert(grants.len() == n);
        if rr == 0 {
            assert(alist_keys(first) =~= alist_keys(players));
            lemma_alist_no_dup_from_keys(first);
            assert forall|i: int| 0 <= i < n implies #[trigger] grants[i] == alist_at(
                first,
                alist_at(targets, alist_keys(players)[i]),
            ) by {
                assert(alist_keys(players)[i] == players[i].0);
                assert(grants[i] == result[i].1.target);
            }
            lemma_grants_cover_round(alist_keys(players), targets, first, grants);
            assert(g_round[0] == alist_vals(first));
        } else {
            let round = shifted[rr - 1]@;
            lemma_alist_no_dup_from_keys(round);
            assert(alist_keys(rounds0[rr]@).to_multiset() == alist_keys(players).to_multiset());
            assert(alist_keys(round).to_multiset() == alist_keys(players).to_multiset());
            crate::perm::lemma_no_duplicates_to_multiset(alist_vals(rounds0[rr]@), alist_vals(round));
            assert forall|i: int| 0 <= i < n implies #[trigger] grants[i] == alist_at(
                round,
                alist_at(targets, alist_keys(players)[i]),
            ) by {
                assert(alist_keys(players)[i] == players[i].0);
                assert(grants[i] == result[i].1.others@[rr - 1]);
            }
            lemma_grants_cover_round(alist_keys(players), targets, round, grants);
            assert(g_round[rr] == alist_vals(rounds0[rr]@));
        }
    }
    crate::perm::lemma_rows_multiset_pointwise(g_round, g_hand);
    // The per-player knowledge rows are the transpose of the per-round
    // grants.
    assert forall|i: int| 0 <= i < n implies (#[trigger] g_know[i]).len() == hints_num by {
        assert(g_know[i] == knowledge_seq(result[i].1));
    }
    assert forall|rr: int, i: int| 0 <= rr < hints_num && 0 <= i < n implies (#[trigger] g_hand[rr][i]) == g_know[i][rr] by {
        assert(g_know[i] == knowledge_seq(result[i].1));
        if rr == 0 {
            assert(knowledge_seq(result[i].1)[0] == result[i].1.target);
        } else {
            assert(knowledge_seq(result[i].1)[rr] == result[i].1.others@[rr - 1]);
        }
    }
    assert forall|rr: int| 0 <= rr < hints_num implies (#[trigger] g_hand[rr]).len() == n by {}
    crate::perm::lemma_transpose_rows_multiset(g_know, g_hand, hints_num);
    lemma_all_knowledge_rows(result);
}

/// The items of the first `i` entries never outnumber the whole.
proof fn lemma_flat_items_prefix<K, ItemT>(s: Seq<(K, Vec<ItemT>)>, i: int)
    requires
        0 <= i < s.len(),
    ensures
        items_before(s, i) + s[i].1@.len() <= flat_items(s).len(),
        items_before(s, i + 1) == items_before(s, i) + s[i].1@.len(),
    decreases s.len(),
{
    assert(s.subrange(0, i + 1).drop_last() =~= s.subrange(0, i));
    assert(flat_items(s.subrange(0, i + 1)) == flat_items(s.subrange(0, i)) + s[i].1@);
    if i == s.len() - 1 {
        assert(s.subrange(0, i + 1) =~= s);
    } else {
        lemma_flat_items_suffix_len(s, i + 1);
    }
}

/// Earlier entries start at earlier flattened positions.
proof fn lemma_items_before_monotone<K, ItemT>(s: Seq<(K, Vec<ItemT>)>, a: int, b: int)
    requires
        0 <= a <= b < s.len(),
    ensures
        items_before(s, a) <= items_before(s, b),
    decreases b - a,
{
    if a < b {
        lemma_flat_items_prefix(s, a);
        lemma_items_before_monotone(s, a + 1, b);
    }
}

/// Where each item of entry `i` stands in the flattened order.
proof fn lemma_flat_items_index<K, ItemT>(s: Seq<(K, Vec<ItemT>)>, i: int, j: int)
    requires
        0 <= i < s.len(),
        0 <= j < s[i].1@.len(),
    ensures
        0 <= items_before(s, i) + j < flat_items(s).len(),
        flat_items(s)[items_before(s, i) + j] == s[i].1@[j],
    decreases s.len(),
{
    lemma_flat_items_prefix(s, i);
    let dl = s.drop_last();
    if i == s.len() - 1 {
        assert(s.subrange(0, i) =~= dl);
        assert(flat_items(s) == flat_items(dl) + s[i].1@);
    } else {
        assert(dl.subrange(0, i) =~= s.subrange(0, i));
        lemma_flat_items_index(dl, i, j);
        lemma_flat_items_prefix(dl, i);
        assert(flat_items(s) == flat_items(dl) + s.last().1@);
        lemma_flat_items_suffix_len(dl, i + 1);
        assert(dl.subrange(0, i + 1) =~= s.subrange(0, i + 1));
    }
}

/// With a duplicate-free flattened order, items at two distinct slots differ.
pub proof fn lemma_flat_slots_distinct<K, ItemT>(
    s: Seq<(K, Vec<ItemT>)>,
    i1: int,
    j1: int,
    i2: int,
    j2: int,
)
    requires
        flat_items(s).no_duplicates(),
        0 <= i1 < s.len(),
        0 <= j1 < s[i1].1@.len(),
        0 <= i2 < s.len(),
        0 <= j2 < s[i2].1@.len(),
        i1 != i2 || j1 != j2,
    ensures
        s[i1].1@[j1] != s[i2].1@[j2],
{
    lemma_flat_items_index(s, i1, j1);
    lemma_flat_items_index(s, i2, j2);
    let p1 = items_before(s, i1) + j1;
    let p2 = items_before(s, i2) + j2;
    if i1 == i2 {
        assert(p1 != p2);
    } else if i1 < i2 {
        lemma_flat_items_prefix(s, i1);
        lemma_items_before_monotone(s, i1 + 1, i2);
        assert(p1 < p2);
    } else {
        lemma_flat_items_prefix(s, i2);
        lemma_items_before_monotone(s, i2 + 1, i1);
        assert(p2 < p1);
    }
}

/// With a duplicate-free flattened order, an item of one entry never occurs
/// in another entry's list.
pub proof fn lemma_flat_lists_disjoint<K, ItemT>(
    s: Seq<(K, Vec<ItemT>)>,
    i1: int,
    i2: int,
    x: ItemT,
)
    requires
        flat_items(s).no_duplicates(),
        0 <= i1 < s.len(),
        0 <= i2 < s.len(),
        i1 != i2,
        s[i1].1@.contains(x),
    ensures
        !s[i2].1@.contains(x),
{
    let j1 = choose|j: int| 0 <= j < s[i1].1@.len() && s[i1].1@[j] == x;
    assert forall|j2: int| 0 <= j2 < s[i2].1@.len() implies s[i2].1@[j2] != x by {
        lemma_flat_slots_distinct(s, i1, j1, i2, j2);
    }
}

/// The flattened items carry the same multiset as the rows seen as a grid.
proof fn lemma_flat_items_rows<K, ItemT>(s: Seq<(K, Vec<ItemT>)>)
    ensures
        flat_items(s).to_multiset() == crate::perm::rows_multiset(
            s.map_values(|e: (K, Vec<ItemT>)| e.1@),
        ),
    decreases s.len(),
{
    broadcast use vstd::seq_lib::group_to_multiset_ensures;

    let rows = s.map_values(|e: (K, Vec<ItemT>)| e.1@);
    if s.len() == 0 {
        assert forall|x: ItemT| flat_items(s).to_multiset().count(x) == 0 by {
            assert(!flat_items(s).contains(x));
        }
        assert(flat_items(s).to_multiset() =~= Multiset::<ItemT>::empty());
    } else {
        let dl = s.drop_last();
        lemma_flat_items_rows(dl);
        assert(rows.drop_last() =~= dl.map_values(|e: (K, Vec<ItemT>)| e.1@));
        vstd::seq_lib::lemma_multiset_commutative(flat_items(dl), s.last().1@);
        assert(rows.last() == s.last().1@);
    }
}

/// A prefix of the entries accounts for no more items than the whole.
proof fn lemma_flat_items_suffix_len<K, ItemT>(s: Seq<(K, Vec<ItemT>)>, i: int)
    requires
        0 <= i <= s.len(),
    ensures
        flat_items(s.subrange(0, i)).len() <= flat_items(s).len(),
    decreases s.len() - i,
{
    if i == s.len() {
        assert(s.subrange(0, i) =~= s);
    } else {
        assert(s.subrange(0, i + 1).drop_last() =~= s.subrange(0, i));
        assert(flat_items(s.subrange(0, i + 1)) == flat_items(s.subrange(0, i)) + s[i].1@);
        lemma_flat_items_suffix_len(s, i + 1);
    }
}

/// No hint is handed out as knowledge twice: on a dealt board, where the
/// knowledge grants cover the dictionary's key column exactly once, the
/// player-major list of all granted hints has no duplicates.
pub proof fn lemma_knowledge_no_duplicates(board: BoardState)
    requires
        alist_no_dup_keys(board.hints@),
        board_knowledge(board.players@).to_multiset() == alist_keys(board.hints@).to_multiset(),
    ensures
        board_knowledge(board.players@).no_duplicates(),
{
    lemma_alist_keys_no_duplicates(board.hints@);
    crate::perm::lemma_no_duplicates_to_multiset(
        alist_keys(board.hints@),
        board_knowledge(board.players@),
    );
}

/// The inputs the dealing step accepts: at least two players with distinct
/// identifiers, each having submitted exactly `hints_num >= 1` hints.
pub open spec fn setup_ok(players: Seq<(PlayerId, InitPlayer)>, hints_num: int) -> bool {
    &&& players.len() >= 2
    &&& hints_num >= 1
    &&& alist_no_dup_keys(players)
    &&& forall|i: int| 0 <= i < players.len() ==> (#[trigger] players[i]).1.hints@.len() == hints_num
}

/// Each registered player's target, in registration order.
pub open spec fn targets_of(players: Seq<(PlayerId, Player)>) -> Seq<PlayerId> {
    players.map_values(|e: (PlayerId, Player)| e.1.target)
}

/// Every hint handed out as knowledge on the dealt board, player-major.
pub open spec fn board_knowledge(players: Seq<(PlayerId, Player)>) -> Seq<HintId> {
    all_knowledge(players.map_values(|e: (PlayerId, Player)| (e.0, e.1.knowledges)))
}

/// With equal list lengths everywhere, entry `i` starts at position `i * m`.
proof fn lemma_items_before_uniform<K, ItemT>(s: Seq<(K, Vec<ItemT>)>, m: int, i: int)
    requires
        forall|j: int| 0 <= j < s.len() ==> (#[trigger] s[j]).1@.len() == m,
        0 <= i <= s.len(),
    ensures
        items_before(s, i) == i * m,
    decreases i,
{
    if i == 0 {
        assert(s.subrange(0, 0) =~= Seq::<(K, Vec<ItemT>)>::empty());
    } else {
        lemma_items_before_uniform(s, m, i - 1);
        lemma_flat_items_prefix(s, i - 1);
        assert((i - 1) * m + m == i * m) by (nonlinear_arith);
    }
}

/// Every item of one entry occurs in the flattened knowledge.
proof fn lemma_all_knowledge_contains(s: Seq<(PlayerId, PlayerKnowledges)>, i: int, x: HintId)
    requires
        0 <= i < s.len(),
        knowledge_seq(s[i].1).contains(x),
    ensures
        all_knowledge(s).contains(x),
    decreases s.len(),
{
    let dl = s.drop_last();
    if i == s.len() - 1 {
        let j = choose|j: int|
            0 <= j < knowledge_seq(s[i].1).len() && knowledge_seq(s[i].1)[j] == x;
        assert(all_knowledge(s)[all_knowledge(dl).len() + j] == x);
    } else {
        lemma_all_knowledge_contains(dl, i, x);
        let j = choose|j: int| 0 <= j < all_knowledge(dl).len() && all_knowledge(dl)[j] == x;
        assert(all_knowledge(s)[j] == x);
    }
}

/// The dictionary holds an identifier exactly when its number is below the
/// dictionary's size.
proof fn lemma_dict_has_key(dict: Seq<(HintId, Hint)>, id: HintId)
    requires
        forall|k: int| 0 <= k < dict.len() ==> (#[trigger] dict[k]).0 == HintId(k as usize),
        dict.len() <= usize::MAX,
    ensures
        alist_has_key(dict, id) <==> id.0 < dict.len(),
{
    if id.0 < dict.len() {
        assert(dict[id.0 as int].0 == id);
    }
    if alist_has_key(dict, id) {
        let k = choose|k: int| 0 <= k < dict.len() && dict[k].0 == id;
        assert(dict[k].0 == HintId(k as usize));
    }
}

/// From the recorded shape of the assembled board, concludes the board-level
/// invariants: derangement, target bijection, knowledge truth and decoys, one
/// hand-out of every hint, and that every reference resolves.
#[verifier::rlimit(60)]
proof fn lemma_init_correct(
    pl: Seq<(PlayerId, InitPlayer)>,
    hints_num: int,
    players2: Seq<(PlayerId, Vec<HintId>)>,
    targets: Seq<(PlayerId, PlayerId)>,
    result: Seq<(PlayerId, PlayerKnowledges)>,
    dict: Seq<(HintId, Hint)>,
    board: Seq<(PlayerId, Player)>,
)
    requires
        pl.len() >= 2,
        hints_num >= 1,
        pl.len() * hints_num <= usize::MAX,
        alist_no_dup_keys(pl),
        players2.len() == pl.len(),
        forall|i: int| 0 <= i < players2.len() ==> (#[trigger] players2[i]).0 == pl[i].0,
        forall|i: int|
            0 <= i < players2.len() ==> (#[trigger] players2[i]).1@.len() == hints_num,
        forall|i: int, j: int|
            0 <= i < players2.len() && 0 <= j < hints_num ==> (#[trigger] players2[i].1@[j])
                == HintId((i * hints_num + j) as usize),
        flat_items(players2).len() == pl.len() * hints_num,
        forall|k: int|
            0 <= k < flat_items(players2).len() ==> (#[trigger] flat_items(players2)[k]) == HintId(
                k as usize,
            ),
        alist_no_dup_keys(targets),
        alist_keys(targets).to_multiset() == alist_keys(pl).to_multiset(),
        alist_vals(targets).to_multiset() == alist_keys(targets).to_multiset(),
        forall|i: int| 0 <= i < targets.len() ==> (#[trigger] targets[i]).1 != targets[i].0,
        result.len() == pl.len(),
        forall|i: int| 0 <= i < result.len() ==> (#[trigger] result[i]).0 == players2[i].0,
        forall|i: int|
            0 <= i < result.len() ==> (#[trigger] result[i]).1.others@.len() == hints_num - 1,
        forall|i: int|
            0 <= i < result.len() ==> alist_at(
                players2,
                alist_at(targets, (#[trigger] result[i]).0),
            )@.contains(result[i].1.target),
        forall|i: int, k: int|
            #![trigger result[i].1.others@[k]]
            0 <= i < result.len() && 0 <= k < result[i].1.others@.len() ==> !alist_at(
                players2,
                alist_at(targets, result[i].0),
            )@.contains(result[i].1.others@[k]),
        all_knowledge(result).to_multiset() == flat_items(players2).to_multiset(),
        dict.len() == pl.len() * hints_num,
        forall|k: int| 0 <= k < dict.len() ==> (#[trigger] dict[k]).0 == HintId(k as usize),
        board.len() == pl.len(),
        forall|i: int| 0 <= i < board.len() ==> (#[trigger] board[i]).0 == pl[i].0,
        forall|i: int| 0 <= i < board.len() ==> (#[trigger] board[i]).1.hints == players2[i].1,
        forall|i: int|
            0 <= i < board.len() ==> (#[trigger] board[i]).1.target == alist_at(
                targets,
                pl[i].0,
            ),
        forall|i: int|
            0 <= i < board.len() ==> (#[trigger] board[i]).1.knowledges == result[i].1,
    ensures
        alist_no_dup_keys(board),
        alist_no_dup_keys(dict),
        forall|i: int| 0 <= i < board.len() ==> (#[trigger] board[i]).1.target != board[i].0,
        forall|i: int|
            0 <= i < board.len() ==> alist_has_key(board, (#[trigger] board[i]).1.target),
        targets_of(board).to_multiset() == alist_keys(board).to_multiset(),
        forall|i: int|
            0 <= i < board.len() ==> owned_hints(board, (#[trigger] board[i]).1.target).contains(
                board[i].1.knowledges.target,
            ),
        forall|i: int, k: int|
            #![trigger board[i].1.knowledges.others@[k]]
            0 <= i < board.len() && 0 <= k < board[i].1.knowledges.others@.len() ==> !owned_hints(
                board,
                board[i].1.target,
            ).contains(board[i].1.knowledges.others@[k]),
        board_knowledge(board).to_multiset() == alist_keys(dict).to_multiset(),
        forall|i: int, j: int|
            #![trigger board[i].1.hints@[j]]
            0 <= i < board.len() && 0 <= j < board[i].1.hints@.len() ==> alist_has_key(
                dict,
                board[i].1.hints@[j],
            ),
        forall|i: int|
            0 <= i < board.len() ==> alist_has_key(
                dict,
                (#[trigger] board[i]).1.knowledges.target,
            ),
        forall|i: int, k: int|
            #![trigger board[i].1.knowledges.others@[k]]
            0 <= i < board.len() && 0 <= k < board[i].1.knowledges.others@.len() ==> alist_has_key(
                dict,
                board[i].1.knowledges.others@[k],
            ),
{
    let n = pl.len() as int;
    lemma_alist_keys_no_duplicates(pl);
    assert(alist_keys(board) =~= alist_keys(pl));
    assert(alist_keys(players2) =~= alist_keys(pl));
    lemma_alist_no_dup_from_keys(board);
    lemma_alist_no_dup_from_keys(players2);
    assert forall|k1: int, k2: int|
        0 <= k1 < dict.len() && 0 <= k2 < dict.len() && k1 != k2 implies dict[k1].0
        != dict[k2].0 by {}
    // Where each player's target stands, and that it is registered.
    assert forall|p: PlayerId| alist_keys(pl).contains(p) implies alist_has_key(targets, p)
        && alist_keys(pl).contains(alist_at(targets, p)) && alist_at(targets, p) != p by {
        crate::perm::lemma_contains_to_multiset(alist_keys(pl), alist_keys(targets), p);
        lemma_alist_has_key_keys(targets, p);
        let k = alist_key_index(targets, p);
        let t = alist_at(targets, p);
        assert(t == targets[k].1);
        assert(targets[k].0 == p);
        assert(t != p);
        assert(alist_vals(targets)[k] == t);
        assert(alist_vals(targets).contains(t));
        crate::perm::lemma_contains_to_multiset(alist_vals(targets), alist_keys(targets), t);
        crate::perm::lemma_contains_to_multiset(alist_keys(targets), alist_keys(pl), t);
    }
    assert forall|i: int| 0 <= i < board.len() implies (#[trigger] board[i]).1.target != board[i].0
        && alist_has_key(board, board[i].1.target) by {
        assert(alist_keys(pl)[i] == pl[i].0);
        assert(alist_keys(pl).contains(pl[i].0));
        lemma_alist_has_key_keys(board, board[i].1.target);
        lemma_alist_has_key_keys(pl, board[i].1.target);
        assert(alist_keys(board) == alist_keys(pl));
    }
    // The targets form a bijection over the registered players.
    let grants = targets_of(board);
    assert(grants.len() == n);
    assert(alist_vals(targets).no_duplicates()) by {
        lemma_alist_keys_no_duplicates(targets);
        crate::perm::lemma_no_duplicates_to_multiset(alist_keys(targets), alist_vals(targets));
    }
    let ident = Seq::new(pl.len(), |i: int| (alist_keys(pl)[i], alist_keys(pl)[i]));
    assert(alist_keys(ident) =~= alist_keys(pl));
    assert(alist_vals(ident) =~= alist_keys(pl));
    lemma_alist_no_dup_from_keys(ident);
    assert forall|i: int| 0 <= i < grants.len() implies #[trigger] grants[i] == alist_at(
        targets,
        alist_at(ident, alist_keys(pl)[i]),
    ) by {
        lemma_alist_at_index(ident, i);
        assert(alist_at(ident, alist_keys(pl)[i]) == alist_keys(pl)[i]);
        assert(grants[i] == board[i].1.target);
        assert(alist_keys(pl)[i] == pl[i].0);
    }
    lemma_grants_cover_round(alist_keys(pl), ident, targets, grants);
    assert(targets_of(board).to_multiset() == alist_keys(board).to_multiset()) by {
        assert(alist_vals(targets).to_multiset() == alist_keys(pl).to_multiset());
        assert(alist_keys(board) == alist_keys(pl));
    }
    // Truth and decoys, restated over the assembled board.
    assert forall|p: PlayerId| alist_keys(pl).contains(p) implies owned_hints(board, p)
        == alist_at(players2, p)@ by {
        lemma_alist_has_key_keys(board, p);
        lemma_alist_has_key_keys(players2, p);
        lemma_alist_has_key_keys(pl, p);
        let j = alist_key_index(board, p);
        let j2 = alist_key_index(players2, p);
        assert(board[j].0 == p && players2[j2].0 == p);
        assert(alist_keys(board)[j] == p && alist_keys(players2)[j2] == p);
        assert(alist_keys(pl)[j] == p && alist_keys(pl)[j2] == p);
        assert(j == j2);
        assert(owned_hints(board, p) == board[j].1.hints@);
        assert(alist_at(players2, p) == players2[j].1);
    }
    assert forall|i: int| 0 <= i < board.len() implies owned_hints(
        board,
        (#[trigger] board[i]).1.target,
    ).contains(board[i].1.knowledges.target) by {
        let p = pl[i].0;
        assert(alist_keys(pl)[i] == p);
        assert(alist_keys(pl).contains(p));
        let t = alist_at(targets, p);
        assert(alist_keys(pl).contains(t));
        assert(result[i].0 == p);
        assert(board[i].1.target == t);
        assert(owned_hints(board, t) == alist_at(players2, t)@);
    }
    assert forall|i: int, k: int|
        #![trigger board[i].1.knowledges.others@[k]]
        0 <= i < board.len() && 0 <= k < board[i].1.knowledges.others@.len() implies !owned_hints(
        board,
        board[i].1.target,
    ).contains(board[i].1.knowledges.others@[k]) by {
        let p = pl[i].0;
        assert(alist_keys(pl)[i] == p);
        assert(alist_keys(pl).contains(p));
        let t = alist_at(targets, p);
        assert(alist_keys(pl).contains(t));
        assert(result[i].0 == p);
        assert(board[i].1.target == t);
        assert(board[i].1.knowledges.others@[k] == result[i].1.others@[k]);
        assert(owned_hints(board, t) == alist_at(players2, t)@);
    }
    // Every hint is handed out exactly once: the knowledge multiset is the
    // dictionary's key column.
    assert(board_knowledge(board).to_multiset() == alist_keys(dict).to_multiset()) by {
        let mapped = board.map_values(|e: (PlayerId, Player)| (e.0, e.1.knowledges));
        assert(mapped =~= result) by {
            assert forall|i: int| 0 <= i < n implies mapped[i] == result[i] by {
                assert(mapped[i] == (board[i].0, board[i].1.knowledges));
                assert(result[i].0 == players2[i].0);
            }
        }
        assert(flat_items(players2) =~= alist_keys(dict)) by {
            assert forall|k: int| 0 <= k < dict.len() implies flat_items(players2)[k]
                == alist_keys(dict)[k] by {
                assert(alist_keys(dict)[k] == dict[k].0);
            }
        }
    }
    // Every reference resolves in the dictionary.
    assert forall|i: int, j: int|
        #![trigger board[i].1.hints@[j]]
        0 <= i < board.len() && 0 <= j < board[i].1.hints@.len() implies alist_has_key(
        dict,
        board[i].1.hints@[j],
    ) by {
        assert(board[i].1.hints@[j] == players2[i].1@[j]);
        assert(players2[i].1@[j] == HintId((i * hints_num + j) as usize));
        assert(0 <= i * hints_num + j < n * hints_num) by (nonlinear_arith)
            requires
                0 <= i < n,
                0 <= j < hints_num,
        ;
        lemma_dict_has_key(dict, HintId((i * hints_num + j) as usize));
    }
    assert forall|i: int, k: int|
        #![trigger knowledge_seq(result[i].1)[k]]
        0 <= i < n && 0 <= k < knowledge_seq(result[i].1).len() implies alist_has_key(
        dict,
        knowledge_seq(result[i].1)[k],
    ) by {
        let x = knowledge_seq(result[i].1)[k];
        assert(knowledge_seq(result[i].1).contains(x));
        lemma_all_knowledge_contains(result, i, x);
        crate::perm::lemma_contains_to_multiset(all_knowledge(result), flat_items(players2), x);
        let m = choose|m: int|
            0 <= m < flat_items(players2).len() && flat_items(players2)[m] == x;
        assert(x == HintId(m as usize));
        lemma_dict_has_key(dict, x);
    }
    assert forall|i: int| 0 <= i < board.len() implies alist_has_key(
        dict,
        (#[trigger] board[i]).1.knowledges.target,
    ) by {
        assert(knowledge_seq(result[i].1)[0] == result[i].1.target);
    }
    assert forall|i: int, k: int|
        #![trigger board[i].1.knowledges.others@[k]]
        0 <= i < board.len() && 0 <= k < board[i].1.knowledges.others@.len() implies alist_has_key(
        dict,
        board[i].1.knowledges.others@[k],
    ) by {
        assert(knowledge_seq(result[i].1)[k + 1] == result[i].1.others@[k]);
    }
}

/// Deals a full board: validates the submissions, extracts the dictionary,
/// assigns every player a target by a shuffled cyclic order, and distributes
/// one true and `hints_num - 1` decoy knowledge hints per player.  Rejects
/// bad input before producing any state; the board is only built whole.
///
/// Two deals from the same submissions need not agree: the shuffles draw
/// fresh randomness each time, and only the stated invariants are promised,
/// never determinism across calls.
#[verifier::loop_isolation(false)]
#[verifier::rlimit(60)]
pub fn init(input: InitBoard, rng: &mut rand::rngs::ThreadRng) -> (r: Result<
    BoardState,
    SetupError,
>)
    requires
        input.players@.len() * input.hints_num <= usize::MAX,
    ensures
        r is Ok <==> setup_ok(input.players@, input.hints_num as int),
        r == Err::<BoardState, SetupError>(SetupError::TooFewPlayers) <==> input.players@.len() < 2,
        r == Err::<BoardState, SetupError>(SetupError::NoHints) <==> input.players@.len() >= 2
            && input.hints_num == 0,
        r == Err::<BoardState, SetupError>(SetupError::DuplicatePlayer) <==> input.players@.len()
            >= 2 && input.hints_num >= 1 && !alist_no_dup_keys(input.players@),
        r == Err::<BoardState, SetupError>(SetupError::WrongHintCount) <==> input.players@.len()
            >= 2 && input.hints_num >= 1 && alist_no_dup_keys(input.players@) && !(forall|i: int|
            0 <= i < input.players@.len() ==> (#[trigger] input.players@[i]).1.hints@.len()
                == input.hints_num),
        r is Ok ==> (r->Ok_0).wf(),
        r is Ok ==> (r->Ok_0).players@.len() == input.players@.len(),
        r is Ok ==> forall|i: int|
            0 <= i < input.players@.len() ==> ((#[trigger] (r->Ok_0).players@[i]).0
                == input.players@[i].0 && (r->Ok_0).players@[i].1.password
                == input.players@[i].1.password && (r->Ok_0).players@[i].1.hints@.len()
                == input.hints_num && (r->Ok_0).players@[i].1.knowledges.others@.len()
                == input.hints_num - 1),
        r is Ok ==> forall|i: int, j: int|
            #![trigger (r->Ok_0).players@[i].1.hints@[j]]
            0 <= i < input.players@.len() && 0 <= j < input.hints_num
                ==> (r->Ok_0).players@[i].1.hints@[j] == HintId(
                (i * input.hints_num + j) as usize,
            ),
        r is Ok ==> (r->Ok_0).hints@.len() == input.players@.len() * input.hints_num,
        r is Ok ==> forall|k: int|
            0 <= k < (r->Ok_0).hints@.len() ==> ((#[trigger] (r->Ok_0).hints@[k]).0 == HintId(
                k as usize,
            )),
        r is Ok ==> forall|i: int, j: int|
            #![trigger input.players@[i].1.hints@[j]]
            0 <= i < input.players@.len() && 0 <= j < input.hints_num ==> (r->Ok_0).hints@[i
                * input.hints_num + j].1.text == input.players@[i].1.hints@[j],
        r is Ok ==> forall|i: int|
            0 <= i < (r->Ok_0).players@.len() ==> (#[trigger] (r->Ok_0).players@[i]).1.target
                != (r->Ok_0).players@[i].0,
        r is Ok ==> targets_of((r->Ok_0).players@).to_multiset() == alist_keys(
            (r->Ok_0).players@,
        ).to_multiset(),
        r is Ok ==> forall|i: int|
            0 <= i < (r->Ok_0).players@.len() ==> owned_hints(
                (r->Ok_0).players@,
                (#[trigger] (r->Ok_0).players@[i]).1.target,
            ).contains((r->Ok_0).players@[i].1.knowledges.target),
        r is Ok ==> forall|i: int, k: int|
            #![trigger (r->Ok_0).players@[i].1.knowledges.others@[k]]
            0 <= i < (r->Ok_0).players@.len() && 0 <= k
                < (r->Ok_0).players@[i].1.knowledges.others@.len() ==> !owned_hints(
                (r->Ok_0).players@,
                (r->Ok_0).players@[i].1.target,
            ).contains((r->Ok_0).players@[i].1.knowledges.others@[k]),
        r is Ok ==> board_knowledge((r->Ok_0).players@).to_multiset() == alist_keys(
            (r->Ok_0).hints@,
        ).to_multiset(),
{
    let n = input.players.len();
    let hints_num = input.hints_num;
    let ghost pl = input.players@;
    if n < 2 {
        return Err(SetupError::TooFewPlayers);
    }
    if hints_num == 0 {
        return Err(SetupError::NoHints);
    }
    let mut a: usize = 0;
    while a < n
        invariant
            a <= n,
            forall|x: int, y: int|
                #![trigger pl[x], pl[y]]
                0 <= x < a && x < y < n ==> pl[x].0 != pl[y].0,
        decreases n - a,
    {
        let mut b2: usize = a + 1;
        while b2 < n
            invariant
                a < n,
                a + 1 <= b2 <= n,
                forall|y: int| a < y < b2 ==> pl[a as int].0 != (#[trigger] pl[y]).0,
            decreases n - b2,
        {
            if input.players[a].0 == input.players[b2].0 {
                proof {
                    assert(!alist_no_dup_keys(pl));
                }
                return Err(SetupError::DuplicatePlayer);
            }
            b2 = b2 + 1;
        }
        a = a + 1;
    }
    proof {
        assert forall|x: int, y: int|
            0 <= x < n && 0 <= y < n && x != y implies (#[trigger] pl[x]).0 != (#[trigger] pl[y]).0 by {
            if x < y {
            } else {
            }
        }
        assert(alist_no_dup_keys(pl));
    }
    let mut a: usize = 0;
    while a < n
        invariant
            a <= n,
            forall|x: int| 0 <= x < a ==> (#[trigger] pl[x]).1.hints@.len() == hints_num,
        decreases n - a,
    {
        if input.players[a].1.hints.len() != hints_num {
            return Err(SetupError::WrongHintCount);
        }
        a = a + 1;
    }
    // The input is valid: build the board, whole.
    let mut inputs = input.players;
    let mut base: Vec<(PlayerId, String)> = Vec::new();
    let mut hint_vecs: Vec<(PlayerId, Vec<Hint>)> = Vec::new();
    let mut pairs: Vec<(PlayerId, PlayerId)> = Vec::new();
    proof {
        assert(inputs@ =~= pl.subrange(0, n as int));
    }
    while inputs.len() > 0
        invariant
            base@.len() + inputs@.len() == n,
            hint_vecs@.len() == base@.len(),
            pairs@.len() == base@.len(),
            inputs@ == pl.subrange(base@.len() as int, n as int),
            forall|i: int|
                0 <= i < base@.len() ==> (#[trigger] base@[i]).0 == pl[i].0 && base@[i].1
                    == pl[i].1.password,
            forall|i: int|
                0 <= i < hint_vecs@.len() ==> (#[trigger] hint_vecs@[i]).0 == pl[i].0
                    && hint_vecs@[i].1@.len() == pl[i].1.hints@.len(),
            forall|i: int, j: int|
                #![trigger hint_vecs@[i].1@[j]]
                0 <= i < hint_vecs@.len() && 0 <= j < hint_vecs@[i].1@.len()
                    ==> hint_vecs@[i].1@[j].text == pl[i].1.hints@[j],
            forall|i: int| 0 <= i < pairs@.len() ==> (#[trigger] pairs@[i]) == (pl[i].0, pl[i].0),
        decreases inputs@.len(),
    {
        let ghost k = base@.len() as int;
        let (pid, ip) = inputs.remove(0);
        proof {
            assert(pl.subrange(k, n as int)[0] == pl[k]);
            assert((pid, ip) == pl[k]);
        }
        let InitPlayer { password, hints: mut hs } = ip;
        let ghost hs0 = hs@;
        proof {
            assert(hs0 == pl[k].1.hints@);
            assert(hs@ =~= hs0.subrange(0, hs0.len() as int));
        }
        let mut hv: Vec<Hint> = Vec::new();
        while hs.len() > 0
            invariant
                hv@.len() + hs@.len() == hs0.len(),
                hs@ == hs0.subrange(hv@.len() as int, hs0.len() as int),
                forall|j: int| 0 <= j < hv@.len() ==> (#[trigger] hv@[j]).text == hs0[j],
            decreases hs@.len(),
        {
            let ghost done = hv@.len() as int;
            let t = hs.remove(0);
            proof {
                assert(hs0.subrange(done, hs0.len() as int)[0] == hs0[done]);
                assert(t == hs0[done]);
            }
            hv.push(Hint { text: t });
            proof {
                assert(hs@ =~= hs0.subrange(hv@.len() as int, hs0.len() as int));
            }
        }
        base.push((pid, password));
        hint_vecs.push((pid, hv));
        pairs.push((pid, pid));
        proof {
            assert(inputs@ =~= pl.subrange(base@.len() as int, n as int));
        }
    }
    proof {
        lemma_alist_keys_no_duplicates(pl);
        assert(alist_keys(pairs@) =~= alist_keys(pl));
        assert(alist_vals(pairs@) =~= alist_keys(pl));
        lemma_items_before_uniform(hint_vecs@, hints_num as int, n as int);
        assert(hint_vecs@.subrange(0, n as int) =~= hint_vecs@);
        assert(flat_items(hint_vecs@).len() == n * hints_num);
    }
    let ghost pairs0 = pairs@;
    let targets_vec = shuffle_shift(pairs, rng);
    let ghost targets = targets_vec@;
    proof {
        lemma_alist_no_dup_from_keys(targets);
        lemma_targets_deranged(pairs0, targets);
        assert(alist_keys(targets).to_multiset() == alist_keys(pl).to_multiset());
        assert(alist_vals(targets).to_multiset() == alist_keys(targets).to_multiset());
    }
    let (dict, mut players2) = extract_dictionary(hint_vecs);
    let ghost players20 = players2@;
    proof {
        assert(alist_keys(players20) =~= alist_keys(pl));
        lemma_alist_no_dup_from_keys(players20);
        assert forall|i: int, j: int|
            #![trigger players20[i].1@[j]]
            0 <= i < n && 0 <= j < hints_num implies players20[i].1@[j] == HintId(
            (i * hints_num + j) as usize,
        ) by {
            lemma_items_before_uniform(hint_vecs@, hints_num as int, i);
        }
        assert(flat_items(players20).no_duplicates()) by {
            assert forall|k1: int, k2: int|
                0 <= k1 < flat_items(players20).len() && 0 <= k2 < flat_items(players20).len()
                    && k1 != k2 implies flat_items(players20)[k1] != flat_items(players20)[k2] by {
                assert(flat_items(players20)[k1] == HintId(k1 as usize));
                assert(flat_items(players20)[k2] == HintId(k2 as usize));
            }
        }
        assert(alist_keys(targets).to_multiset() == alist_keys(players20).to_multiset());
    }
    let knowledges = hand_out_hints(&players2, hints_num, &targets_vec, rng);
    let mut kn = knowledges;
    let ghost kn0 = kn@;
    let ghost base0 = base@;
    let mut players_out: Vec<(PlayerId, Player)> = Vec::new();
    let mut i: usize = 0;
    proof {
        assert(base@ =~= base0.subrange(0, n as int));
        assert(players2@ =~= players20.subrange(0, n as int));
        assert(kn@ =~= kn0.subrange(0, n as int));
        // Every player id is a key of the target map.
        assert forall|p: PlayerId| alist_keys(pl).contains(p) implies alist_has_key(
            targets,
            p,
        ) by {
            crate::perm::lemma_contains_to_multiset(alist_keys(pl), alist_keys(targets), p);
            lemma_alist_has_key_keys(targets, p);
        }
    }
    while i < n
        invariant
            i <= n,
            base@ == base0.subrange(i as int, n as int),
            players2@ == players20.subrange(i as int, n as int),
            kn@ == kn0.subrange(i as int, n as int),
            players_out@.len() == i,
            forall|ii: int|
                0 <= ii < i ==> (#[trigger] players_out@[ii]).0 == pl[ii].0
                    && players_out@[ii].1.password == pl[ii].1.password
                    && players_out@[ii].1.hints == players20[ii].1 && players_out@[ii].1.target
                    == alist_at(targets, pl[ii].0) && players_out@[ii].1.knowledges == kn0[ii].1,
        decreases n - i,
    {
        let (pid, password) = base.remove(0);
        let (_pid2, hints) = players2.remove(0);
        let (_pid3, know) = kn.remove(0);
        proof {
            assert(base0.subrange(i as int, n as int)[0] == base0[i as int]);
            assert(players20.subrange(i as int, n as int)[0] == players20[i as int]);
            assert(kn0.subrange(i as int, n as int)[0] == kn0[i as int]);
            assert((pid, password) == base0[i as int]);
            assert(pid == pl[i as int].0);
            assert(alist_keys(pl)[i as int] == pid);
            assert(alist_keys(pl).contains(pid));
            assert(base@ =~= base0.subrange(i + 1, n as int));
            assert(players2@ =~= players20.subrange(i + 1, n as int));
            assert(kn@ =~= kn0.subrange(i + 1, n as int));
        }
        let target = match crate::assoc::alist_get(&targets_vec, pid) {
            Some(v) => *v,
            None => {
                proof {
                    assert(false);
                }
                vstd::pervasive::unreached()
            },
        };
        players_out.push((pid, Player { password, hints, target, knowledges: know }));
        i = i + 1;
    }
    proof {
        lemma_init_correct(
            pl,
            hints_num as int,
            players20,
            targets,
            kn0,
            dict@,
            players_out@,
        );
    }
    let board = BoardState { hints: dict, players: players_out };
    proof {
        lemma_board_wf(board);
        lemma_dict_texts(board.hints@, hint_vecs@, pl, hints_num as int);
    }
    Ok(board)
}

/// A board whose parts satisfy the assembled invariants is well-formed.
proof fn lemma_board_wf(board: BoardState)
    requires
        alist_no_dup_keys(board.players@),
        alist_no_dup_keys(board.hints@),
        forall|i: int|
            0 <= i < board.players@.len() ==> (#[trigger] board.players@[i]).1.target
                != board.players@[i].0,
        forall|i: int|
            0 <= i < board.players@.len() ==> alist_has_key(
                board.players@,
                (#[trigger] board.players@[i]).1.target,
            ),
        forall|i: int, j: int|
            #![trigger board.players@[i].1.hints@[j]]
            0 <= i < board.players@.len() && 0 <= j < board.players@[i].1.hints@.len()
                ==> alist_has_key(board.hints@, board.players@[i].1.hints@[j]),
        forall|i: int|
            0 <= i < board.players@.len() ==> alist_has_key(
                board.hints@,
                (#[trigger] board.players@[i]).1.knowledges.target,
            ),
        forall|i: int, k: int|
            #![trigger board.players@[i].1.knowledges.others@[k]]
            0 <= i < board.players@.len() && 0 <= k
                < board.players@[i].1.knowledges.others@.len() ==> alist_has_key(
                board.hints@,
                board.players@[i].1.knowledges.others@[k],
            ),
    ensures
        board.wf(),
{
    assert forall|i: int|
        #![trigger board.players@[i]]
        0 <= i < board.players@.len() implies {
        let p = board.players@[i].1;
        &&& p.target != board.players@[i].0
        &&& alist_has_key(board.players@, p.target)
        &&& forall|j: int|
            0 <= j < p.hints@.len() ==> alist_has_key(board.hints@, #[trigger] p.hints@[j])
        &&& alist_has_key(board.hints@, p.knowledges.target)
        &&& forall|j: int|
            0 <= j < p.knowledges.others@.len() ==> alist_has_key(
                board.hints@,
                #[trigger] p.knowledges.others@[j],
            )
    } by {
        let p = board.players@[i].1;
        assert forall|j: int| 0 <= j < p.hints@.len() implies alist_has_key(
            board.hints@,
            #[trigger] p.hints@[j],
        ) by {
            assert(board.players@[i].1.hints@[j] == p.hints@[j]);
        }
        assert forall|j: int| 0 <= j < p.knowledges.others@.len() implies alist_has_key(
            board.hints@,
            #[trigger] p.knowledges.others@[j],
        ) by {
            assert(board.players@[i].1.knowledges.others@[j] == p.knowledges.others@[j]);
        }
    }
}

/// Each dictionary entry carries the text submitted at its slot.
proof fn lemma_dict_texts(
    dict: Seq<(HintId, Hint)>,
    hint_vecs: Seq<(PlayerId, Vec<Hint>)>,
    pl: Seq<(PlayerId, InitPlayer)>,
    hints_num: int,
)
    requires
        hints_num >= 1,
        hint_vecs.len() == pl.len(),
        forall|j: int| 0 <= j < hint_vecs.len() ==> (#[trigger] hint_vecs[j]).1@.len() == hints_num,
        forall|i: int, j: int|
            #![trigger hint_vecs[i].1@[j]]
            0 <= i < hint_vecs.len() && 0 <= j < hints_num ==> hint_vecs[i].1@[j].text
                == pl[i].1.hints@[j],
        dict.len() == flat_items(hint_vecs).len(),
        forall|k: int|
            0 <= k < dict.len() ==> (#[trigger] dict[k]) == (
            HintId(k as usize),
            flat_items(hint_vecs)[k],
            ),
    ensures
        forall|i: int, j: int|
            #![trigger pl[i].1.hints@[j]]
            0 <= i < pl.len() && 0 <= j < hints_num ==> dict[i * hints_num + j].1.text
                == pl[i].1.hints@[j],
{
    assert forall|i: int, j: int|
        #![trigger pl[i].1.hints@[j]]
        0 <= i < pl.len() && 0 <= j < hints_num implies dict[i * hints_num + j].1.text
        == pl[i].1.hints@[j] by {
        lemma_items_before_uniform(hint_vecs, hints_num, i);
        lemma_flat_items_index(hint_vecs, i, j);
        assert(flat_items(hint_vecs)[i * hints_num + j] == hint_vecs[i].1@[j]);
        assert(dict[i * hints_num + j] == (
            HintId((i * hints_num + j) as usize),
            flat_items(hint_vecs)[i * hints_num + j],
        ));
    }
}

/// Assigning each key the key of its shuffled cyclic predecessor never maps a
/// key to itself, and uses every key once as a value.
proof fn lemma_targets_deranged(pairs0: Seq<(PlayerId, PlayerId)>, targets: Seq<(PlayerId, PlayerId)>)
    requires
        forall|i: int| 0 <= i < pairs0.len() ==> (#[trigger] pairs0[i]).1 == pairs0[i].0,
        deranged_from(pairs0, targets),
        alist_vals(targets).to_multiset() == alist_vals(pairs0).to_multiset(),
        alist_keys(targets).to_multiset() == alist_keys(pairs0).to_multiset(),
    ensures
        forall|i: int| 0 <= i < targets.len() ==> (#[trigger] targets[i]).1 != targets[i].0,
        alist_vals(targets).to_multiset() == alist_keys(targets).to_multiset(),
{
    assert forall|i: int| 0 <= i < targets.len() implies (#[trigger] targets[i]).1
        != targets[i].0 by {
        assert(value_from_other_key(pairs0, targets[i]));
        let j = choose|j: int|
            #![trigger pairs0[j]]
            0 <= j < pairs0.len() && targets[i].1 == pairs0[j].1 && pairs0[j].0 != targets[i].0;
        assert(pairs0[j].1 == pairs0[j].0);
    }
    assert(alist_vals(pairs0) =~= alist_keys(pairs0));
}

} // verus!

//! The UTXO ledger: the set of unspent outputs and registered assets, the
//! all-or-nothing transaction application that enforces double-spend,
//! script-authorization and asset-conservation rules, and the chain state
//! that applies whole blocks and recomputes commitments.
use vstd::prelude::*;

use crate::hashing::{
    hash_bytes, hash_eq, hash_lt, lemma_lex_connex, lemma_lex_irrefl, lemma_lex_trans, lex_lt,
    spec_content_hash, Hash256,
};
use crate::script::{
    spec_decode_script, spec_encode_script, script_encodable, OpCodeView, ResolvedInput,
    ResolvedInputView, Script, ScriptEngine, ScriptHost,
};
use crate::types::{
    derive_asset_id, Block, spec_derive_asset_id, spec_tx_id, AssetAmount, AssetDefinition, AssetId,
    Output, OutputView, Transaction, TransactionInput, TransactionKind, TransactionView,
};

verus! {

/// Unique identifier of an unspent output: the creating transaction's id and
/// the output's position in it.
#[derive(Debug, Clone, Copy, PartialEq, Eq)]
pub struct UtxoKey {
    pub tx_id: Hash256,
    pub index: u32,
}

/// Mathematical value of a [`UtxoKey`].
#[verifier::ext_equal]
pub struct UtxoKeyView {
    pub tx_id: Seq<u8>,
    pub index: u32,
}

impl View for UtxoKey {
    type V = UtxoKeyView;

    open spec fn view(&self) -> UtxoKeyView {
        UtxoKeyView { tx_id: self.tx_id@, index: self.index }
    }
}

/// An output together with the height it was created at.
#[derive(Debug, Clone, PartialEq, Eq)]
pub struct TrackedOutput {
    pub output: Output,
    pub created_height: u64,
}

/// Mathematical value of a [`TrackedOutput`].
#[verifier::ext_equal]
pub struct TrackedOutputView {
    pub output: OutputView,
    pub created_height: u64,
}

impl View for TrackedOutput {
    type V = TrackedOutputView;

    open spec fn view(&self) -> TrackedOutputView {
        TrackedOutputView { output: self.output@, created_height: self.created_height }
    }
}

/// The order UTXO keys are stored and encoded in: by transaction id bytes,
/// then by output index.
pub open spec fn key_view_lt(a: UtxoKeyView, b: UtxoKeyView) -> bool {
    ||| lex_lt(a.tx_id, b.tx_id)
    ||| (a.tx_id == b.tx_id && a.index < b.index)
}

/// Transitivity of the storage order, for keys of equal id length.
pub proof fn lemma_key_view_lt_trans(a: UtxoKeyView, b: UtxoKeyView, c: UtxoKeyView)
    requires
        a.tx_id.len() == b.tx_id.len(),
        b.tx_id.len() == c.tx_id.len(),
        key_view_lt(a, b),
        key_view_lt(b, c),
    ensures
        key_view_lt(a, c),
{
    if lex_lt(a.tx_id, b.tx_id) && lex_lt(b.tx_id, c.tx_id) {
        lemma_lex_trans(a.tx_id, b.tx_id, c.tx_id);
    }
}

pub proof fn lemma_key_view_lt_properties(a: UtxoKeyView, b: UtxoKeyView)
    requires
        a.tx_id.len() == b.tx_id.len(),
    ensures
        !(key_view_lt(a, b) && key_view_lt(b, a)),
        !key_view_lt(a, b) && !key_view_lt(b, a) ==> a.tx_id == b.tx_id && a.index == b.index,
        key_view_lt(a, a) == false,
{
    crate::hashing::lemma_lex_asym(a.tx_id, b.tx_id);
    lemma_lex_irrefl(a.tx_id);
    if !key_view_lt(a, b) && !key_view_lt(b, a) {
        lemma_lex_connex(a.tx_id, b.tx_id);
    }
}

/// Whether UTXO key `a` precedes `b` in storage order.
pub fn utxo_key_lt(a: &UtxoKey, b: &UtxoKey) -> (r: bool)
    ensures
        r == key_view_lt(a@, b@),
{
    if hash_lt(&a.tx_id, &b.tx_id) {
        return true;
    }
    if hash_eq(&a.tx_id, &b.tx_id) {
        return a.index < b.index;
    }
    false
}

/// Equality of UTXO keys.
pub fn utxo_key_eq(a: &UtxoKey, b: &UtxoKey) -> (r: bool)
    ensures
        r == (a@ == b@),
{
    let r = hash_eq(&a.tx_id, &b.tx_id) && a.index == b.index;
    proof {
        if a.tx_id@ == b.tx_id@ && a.index == b.index {
            assert(a@ =~= b@);
        }
    }
    r
}

struct UtxoEntry {
    key: UtxoKey,
    value: TrackedOutput,
}

/// The set of unspent outputs: a mapping from key to tracked output, held
/// sorted by key so that its encoding — and every state root derived from
/// it — is a pure function of its contents.
pub struct UtxoMap {
    entries: Vec<UtxoEntry>,
}

/// The mapping a sequence of entries denotes, later entries winning.
spec fn map_of(s: Seq<UtxoEntry>) -> Map<UtxoKeyView, TrackedOutputView>
    decreases s.len(),
{
    if s.len() == 0 {
        Map::empty()
    } else {
        map_of(s.drop_last()).insert(s.last().key@, s.last().value@)
    }
}

/// A key is in the mapping exactly when some entry carries it.
proof fn lemma_map_of_dom(s: Seq<UtxoEntry>)
    ensures
        forall|k: UtxoKeyView|
            map_of(s).dom().contains(k) <==> exists|i: int| 0 <= i < s.len() && s[i].key@ == k,
    decreases s.len(),
{
    if s.len() > 0 {
        lemma_map_of_dom(s.drop_last());
        assert(map_of(s) == map_of(s.drop_last()).insert(s.last().key@, s.last().value@));
        assert forall|k: UtxoKeyView| map_of(s).dom().contains(k) implies exists|i: int|
            0 <= i < s.len() && s[i].key@ == k by {
            assert(map_of(s).dom() =~= map_of(s.drop_last()).dom().insert(s.last().key@));
            if k == s.last().key@ {
                assert(s[s.len() - 1].key@ == k);
            } else {
                let i = choose|i: int| 0 <= i < s.drop_last().len() && s.drop_last()[i].key@ == k;
                assert(s[i].key@ == k);
            }
        }
        assert forall|k: UtxoKeyView|
            (exists|i: int| 0 <= i < s.len() && s[i].key@ == k) implies map_of(
            s,
        ).dom().contains(k) by {
            let i = choose|i: int| 0 <= i < s.len() && s[i].key@ == k;
            if i < s.len() - 1 {
                assert(s.drop_last()[i].key@ == k);
                assert(map_of(s.drop_last()).dom().contains(k));
            } else {
                assert(k == s.last().key@);
            }
        }
    }
}

/// With distinct keys, the entry carrying a key gives its mapped value.
proof fn lemma_map_of_value(s: Seq<UtxoEntry>, k: UtxoKeyView, idx: int)
    requires
        forall|i: int, j: int|
            0 <= i < j < s.len() ==> (#[trigger] s[i].key@) != (#[trigger] s[j].key@),
        0 <= idx < s.len(),
        s[idx].key@ == k,
    ensures
        map_of(s).dom().contains(k),
        map_of(s)[k] == s[idx].value@,
    decreases s.len(),
{
    if idx == s.len() - 1 {
    } else {
        assert(s.last().key@ != k);
        assert(s.drop_last()[idx].key@ == k);
        lemma_map_of_value(s.drop_last(), k, idx);
    }
}

impl View for UtxoMap {
    type V = Map<UtxoKeyView, TrackedOutputView>;

    closed spec fn view(&self) -> Map<UtxoKeyView, TrackedOutputView> {
        map_of(self.entries@)
    }
}

impl UtxoMap {
    /// Entries are strictly sorted by key, so keys are unique; every stored
    /// output fits the canonical encoding's length fields.
    pub closed spec fn wf(self) -> bool {
        &&& forall|i: int, j: int|
            0 <= i < j < self.entries@.len() ==> key_view_lt(
                #[trigger] self.entries@[i].key@,
                #[trigger] self.entries@[j].key@,
            )
        &&& forall|i: int|
            0 <= i < self.entries@.len() ==> crate::codec::output_encodable(
                (#[trigger] self.entries@[i]).value@.output,
            )
    }

    /// The stored entries, in key order, as mathematical values.
    pub closed spec fn spec_entries(self) -> Seq<(UtxoKeyView, TrackedOutputView)> {
        Seq::new(self.entries@.len(), |i: int| (self.entries@[i].key@, self.entries@[i].value@))
    }

    /// Sorted entries have pairwise distinct keys.
    proof fn lemma_distinct(self)
        requires
            self.wf(),
        ensures
            forall|i: int, j: int|
                0 <= i < j < self.entries@.len() ==> (#[trigger] self.entries@[i].key@) != (
                #[trigger] self.entries@[j].key@),
    {
        assert forall|i: int, j: int| 0 <= i < j < self.entries@.len() implies (
        #[trigger] self.entries@[i].key@) != (#[trigger] self.entries@[j].key@) by {
            assert(key_view_lt(self.entries@[i].key@, self.entries@[j].key@));
            lemma_key_view_lt_properties(self.entries@[i].key@, self.entries@[j].key@);
        }
    }

    proof fn lemma_match_value(self, k: UtxoKeyView, idx: int)
        requires
            self.wf(),
            0 <= idx < self.entries@.len(),
            self.entries@[idx].key@ == k,
        ensures
            self@.dom().contains(k),
            self@[k] == self.entries@[idx].value@,
    {
        self.lemma_distinct();
        lemma_map_of_value(self.entries@, k, idx);
    }

    pub fn new() -> (r: Self)
        ensures
            r@ == Map::<UtxoKeyView, TrackedOutputView>::empty(),
            r.wf(),
            r.spec_entries().len() == 0,
    {
        let r = UtxoMap { entries: Vec::new() };
        proof {
            assert(r@ =~= Map::<UtxoKeyView, TrackedOutputView>::empty());
        }
        r
    }

    /// How many unspent outputs are recorded.
    pub fn len(&self) -> (n: usize)
        ensures
            n == self.spec_entries().len(),
    {
        self.entries.len()
    }

    pub fn get(&self, key: &UtxoKey) -> (r: Option<&TrackedOutput>)
        requires
            self.wf(),
        ensures
            match r {
                Some(v) => self@.dom().contains(key@) && v@ == self@[key@],
                None => !self@.dom().contains(key@),
            },
    {
        let mut i: usize = 0;
        while i < self.entries.len()
            invariant
                0 <= i <= self.entries@.len(),
                self.wf(),
                forall|j: int| 0 <= j < i ==> self.entries@[j].key@ != key@,
            decreases self.entries@.len() - i,
        {
            if utxo_key_eq(&self.entries[i].key, key) {
                proof {
                    self.lemma_match_value(key@, i as int);
                }
                return Some(&self.entries[i].value);
            }
            i = i + 1;
        }
        proof {
            lemma_map_of_dom(self.entries@);
        }
        None
    }

    pub fn contains_key(&self, key: &UtxoKey) -> (b: bool)
        requires
            self.wf(),
        ensures
            b == self@.dom().contains(key@),
    {
        self.get(key).is_some()
    }

    pub fn insert(&mut self, key: UtxoKey, value: TrackedOutput)
        requires
            old(self).wf(),
            crate::codec::output_encodable(value@.output),
        ensures
            final(self).wf(),
            final(self)@ == old(self)@.insert(key@, value@),
    {
        let mut idx: usize = 0;
        while idx < self.entries.len() && utxo_key_lt(&self.entries[idx].key, &key)
            invariant
                0 <= idx <= self.entries@.len(),
                self.wf(),
                self == old(self),
                forall|j: int| 0 <= j < idx ==> key_view_lt(#[trigger] self.entries@[j].key@, key@),
            decreases self.entries@.len() - idx,
        {
            idx = idx + 1;
        }
        let ghost oldself = *self;
        if idx < self.entries.len() && utxo_key_eq(&self.entries[idx].key, &key) {
            self.entries.set(idx, UtxoEntry { key, value });
            proof {
                lemma_map_of_dom(self.entries@);
                lemma_map_of_dom(oldself.entries@);
                assert forall|i: int, j: int| 0 <= i < j < self.entries@.len() implies key_view_lt(
                    #[trigger] self.entries@[i].key@,
                    #[trigger] self.entries@[j].key@,
                ) by {
                    assert(key_view_lt(oldself.entries@[i].key@, oldself.entries@[j].key@));
                }
                assert forall|k: UtxoKeyView| self@.dom().contains(k) == old(
                    self,
                )@.insert(key@, value@).dom().contains(k) by {
                    if k == key@ {
                        self.lemma_match_value(k, idx as int);
                    } else {
                        if self@.dom().contains(k) {
                            let i = choose|i: int|
                                0 <= i < self.entries@.len() && self.entries@[i].key@ == k;
                            assert(oldself.entries@[i].key@ == k);
                        }
                        if old(self)@.dom().contains(k) {
                            let i = choose|i: int|
                                0 <= i < oldself.entries@.len() && oldself.entries@[i].key@ == k;
                            assert(self.entries@[i].key@ == k);
                        }
                    }
                }
                assert forall|k: UtxoKeyView| #[trigger]
                    self@.dom().contains(k) implies self@[k] == old(self)@.insert(key@, value@)[k] by {
                    if k == key@ {
                        self.lemma_match_value(k, idx as int);
                    } else {
                        let i = choose|i: int|
                            0 <= i < self.entries@.len() && self.entries@[i].key@ == k;
                        assert(i != idx);
                        self.lemma_match_value(k, i);
                        oldself.lemma_match_value(k, i);
                    }
                }
                assert(self@ =~= old(self)@.insert(key@, value@));
            }
        } else {
            self.entries.insert(idx, UtxoEntry { key, value });
            proof {
                lemma_map_of_dom(self.entries@);
                lemma_map_of_dom(oldself.entries@);
                // at idx in the old vector sat the first entry not below `key`;
                // it is not equal to it either, so it is strictly above
                assert forall|i: int, j: int| 0 <= i < j < self.entries@.len() implies key_view_lt(
                    #[trigger] self.entries@[i].key@,
                    #[trigger] self.entries@[j].key@,
                ) by {
                    if j < idx {
                        assert(key_view_lt(oldself.entries@[i].key@, oldself.entries@[j].key@));
                    } else if i > idx {
                        assert(key_view_lt(
                            oldself.entries@[i - 1].key@,
                            oldself.entries@[j - 1].key@,
                        ));
                    } else if i < idx && j == idx {
                        assert(key_view_lt(oldself.entries@[i].key@, key@));
                    } else if i < idx && j > idx {
                        assert(key_view_lt(oldself.entries@[i].key@, oldself.entries@[j - 1].key@));
                    } else if i == idx && j > idx {
                        let e = oldself.entries@[j - 1].key@;
                        lemma_key_view_lt_properties(key@, e);
                        if idx < oldself.entries@.len() {
                            assert(!key_view_lt(oldself.entries@[idx as int].key@, key@));
                            assert(oldself.entries@[idx as int].key@ != key@);
                            lemma_key_view_lt_properties(oldself.entries@[idx as int].key@, key@);
                            if j - 1 > idx {
                                assert(key_view_lt(
                                    oldself.entries@[idx as int].key@,
                                    oldself.entries@[j - 1].key@,
                                ));
                                lemma_key_view_lt_properties(key@, oldself.entries@[idx as int].key@);
                                lemma_key_view_lt_trans(
                                    key@,
                                    oldself.entries@[idx as int].key@,
                                    e,
                                );
                            } else {
                                assert(key_view_lt(key@, e));
                            }
                        }
                    }
                }
                assert forall|k: UtxoKeyView| self@.dom().contains(k) == old(
                    self,
                )@.insert(key@, value@).dom().contains(k) by {
                    if k == key@ {
                        assert(self.entries@[idx as int].key@ == k);
                    } else {
                        if self@.dom().contains(k) {
                            let i = choose|i: int|
                                0 <= i < self.entries@.len() && self.entries@[i].key@ == k;
                            if i < idx {
                                assert(oldself.entries@[i].key@ == k);
                            } else {
                                assert(oldself.entries@[i - 1].key@ == k);
                            }
                        }
                        if old(self)@.dom().contains(k) {
                            let i = choose|i: int|
                                0 <= i < oldself.entries@.len() && oldself.entries@[i].key@ == k;
                            if i < idx {
                                assert(self.entries@[i].key@ == k);
                            } else {
                                assert(self.entries@[i + 1].key@ == k);
                            }
                        }
                    }
                }
                assert forall|k: UtxoKeyView| #[trigger]
                    self@.dom().contains(k) implies self@[k] == old(self)@.insert(key@, value@)[k] by {
                    if k == key@ {
                        self.lemma_match_value(k, idx as int);
                    } else {
                        let i = choose|i: int|
                            0 <= i < self.entries@.len() && self.entries@[i].key@ == k;
                        self.lemma_match_value(k, i);
                        if i < idx {
                            oldself.lemma_match_value(k, i);
                        } else {
                            oldself.lemma_match_value(k, i - 1);
                        }
                    }
                }
                assert(self@ =~= old(self)@.insert(key@, value@));
            }
        }
    }

    pub fn remove(&mut self, key: &UtxoKey)
        requires
            old(self).wf(),
        ensures
            final(self).wf(),
            final(self)@ == old(self)@.remove(key@),
    {
        let ghost oldself = *self;
        let mut i: usize = 0;
        while i < self.entries.len()
            invariant
                0 <= i <= self.entries@.len(),
                self.wf(),
                self == old(self),
                oldself == *old(self),
                forall|j: int| 0 <= j < i ==> self.entries@[j].key@ != key@,
            decreases self.entries@.len() - i,
        {
            if utxo_key_eq(&self.entries[i].key, key) {
                self.entries.remove(i);
                proof {
                    lemma_map_of_dom(self.entries@);
                    lemma_map_of_dom(oldself.entries@);
                    oldself.entries@.remove_ensures(i as int);
                    assert(self.entries@.len() == oldself.entries@.len() - 1);
                    assert(forall|x: int|
                        0 <= x < i ==> #[trigger] self.entries@[x] == oldself.entries@[x]);
                    assert(forall|x: int|
                        i <= x < self.entries@.len() ==> #[trigger] self.entries@[x]
                            == oldself.entries@[x + 1]);
                    assert forall|a: int, b: int|
                        0 <= a < b < self.entries@.len() implies key_view_lt(
                        #[trigger] self.entries@[a].key@,
                        #[trigger] self.entries@[b].key@,
                    ) by {
                        let a0 = if a < i { a } else { a + 1 };
                        let b0 = if b < i { b } else { b + 1 };
                        assert(key_view_lt(oldself.entries@[a0].key@, oldself.entries@[b0].key@));
                    }
                    assert forall|k: UtxoKeyView| self@.dom().contains(k) == old(
                        self,
                    )@.remove(key@).dom().contains(k) by {
                        if self@.dom().contains(k) {
                            let a = choose|a: int|
                                0 <= a < self.entries@.len() && self.entries@[a].key@ == k;
                            let a0 = if a < i { a } else { a + 1 };
                            assert(oldself.entries@[a0].key@ == k);
                            if k == key@ {
                                lemma_key_view_lt_properties(
                                    oldself.entries@[a0].key@,
                                    oldself.entries@[i as int].key@,
                                );
                            }
                        }
                        if old(self)@.remove(key@).dom().contains(k) {
                            let a = choose|a: int|
                                0 <= a < oldself.entries@.len() && oldself.entries@[a].key@ == k;
                            if a != i {
                                let a1 = if a < i { a } else { a - 1 };
                                assert(self.entries@[a1].key@ == k);
                            } else {
                                assert(k == key@);
                            }
                        }
                    }
                    assert forall|k: UtxoKeyView| #[trigger]
                        self@.dom().contains(k) implies self@[k] == old(self)@.remove(key@)[k] by {
                        let a = choose|a: int|
                            0 <= a < self.entries@.len() && self.entries@[a].key@ == k;
                        self.lemma_match_value(k, a);
                        let a0 = if a < i { a } else { a + 1 };
                        oldself.lemma_match_value(k, a0);
                    }
                    assert(self@ =~= old(self)@.remove(key@));
                }
                return;
            }
            i = i + 1;
        }
        proof {
            lemma_map_of_dom(self.entries@);
            assert(!self@.dom().contains(key@));
            assert(self@ =~= old(self)@.remove(key@));
        }
    }
}


struct AssetEntry {
    id: AssetId,
    definition: AssetDefinition,
}

/// The asset registry: a mapping from derived asset id to its immutable
/// definition, held sorted by id bytes.
pub struct AssetRegistry {
    entries: Vec<AssetEntry>,
}

/// The mapping a sequence of asset entries denotes, later entries winning.
spec fn asset_map_of(s: Seq<AssetEntry>) -> Map<Seq<u8>, AssetDefinition>
    decreases s.len(),
{
    if s.len() == 0 {
        Map::empty()
    } else {
        asset_map_of(s.drop_last()).insert(s.last().id.0@, s.last().definition)
    }
}

proof fn lemma_asset_map_of_dom(s: Seq<AssetEntry>)
    ensures
        forall|k: Seq<u8>|
            asset_map_of(s).dom().contains(k) <==> exists|i: int| 0 <= i < s.len() && s[i].id.0@
                == k,
    decreases s.len(),
{
    if s.len() > 0 {
        lemma_asset_map_of_dom(s.drop_last());
        assert(asset_map_of(s) == asset_map_of(s.drop_last()).insert(
            s.last().id.0@,
            s.last().definition,
        ));
        assert forall|k: Seq<u8>| asset_map_of(s).dom().contains(k) implies exists|i: int|
            0 <= i < s.len() && s[i].id.0@ == k by {
            assert(asset_map_of(s).dom() =~= asset_map_of(s.drop_last()).dom().insert(
                s.last().id.0@,
            ));
            if k == s.last().id.0@ {
                assert(s[s.len() - 1].id.0@ == k);
            } else {
                let i = choose|i: int| 0 <= i < s.drop_last().len() && s.drop_last()[i].id.0@ == k;
                assert(s[i].id.0@ == k);
            }
        }
        assert forall|k: Seq<u8>|
            (exists|i: int| 0 <= i < s.len() && s[i].id.0@ == k) implies asset_map_of(
            s,
        ).dom().contains(k) by {
            let i = choose|i: int| 0 <= i < s.len() && s[i].id.0@ == k;
            if i < s.len() - 1 {
                assert(s.drop_last()[i].id.0@ == k);
                assert(asset_map_of(s.drop_last()).dom().contains(k));
            } else {
                assert(k == s.last().id.0@);
            }
        }
    }
}

proof fn lemma_asset_map_of_value(s: Seq<AssetEntry>, k: Seq<u8>, idx: int)
    requires
        forall|i: int, j: int|
            0 <= i < j < s.len() ==> (#[trigger] s[i].id.0@) != (#[trigger] s[j].id.0@),
        0 <= idx < s.len(),
        s[idx].id.0@ == k,
    ensures
        asset_map_of(s).dom().contains(k),
        asset_map_of(s)[k] == s[idx].definition,
    decreases s.len(),
{
    if idx == s.len() - 1 {
    } else {
        assert(s.last().id.0@ != k);
        assert(s.drop_last()[idx].id.0@ == k);
        lemma_asset_map_of_value(s.drop_last(), k, idx);
    }
}

impl View for AssetRegistry {
    type V = Map<Seq<u8>, AssetDefinition>;

    closed spec fn view(&self) -> Map<Seq<u8>, AssetDefinition> {
        asset_map_of(self.entries@)
    }
}

impl AssetRegistry {
    /// Entries are strictly sorted by id bytes, so ids are unique.
    pub closed spec fn wf(self) -> bool {
        forall|i: int, j: int|
            0 <= i < j < self.entries@.len() ==> lex_lt(
                #[trigger] self.entries@[i].id.0@,
                #[trigger] self.entries@[j].id.0@,
            )
    }

    /// The registered assets, in id order, as mathematical values.
    pub closed spec fn spec_entries(self) -> Seq<(Seq<u8>, AssetDefinition)> {
        Seq::new(self.entries@.len(), |i: int| (self.entries@[i].id.0@, self.entries@[i].definition))
    }

    proof fn lemma_distinct(self)
        requires
            self.wf(),
        ensures
            forall|i: int, j: int|
                0 <= i < j < self.entries@.len() ==> (#[trigger] self.entries@[i].id.0@) != (
                #[trigger] self.entries@[j].id.0@),
    {
        assert forall|i: int, j: int| 0 <= i < j < self.entries@.len() implies (
        #[trigger] self.entries@[i].id.0@) != (#[trigger] self.entries@[j].id.0@) by {
            assert(lex_lt(self.entries@[i].id.0@, self.entries@[j].id.0@));
            crate::hashing::lemma_lex_irrefl(self.entries@[i].id.0@);
        }
    }

    proof fn lemma_match_value(self, k: Seq<u8>, idx: int)
        requires
            self.wf(),
            0 <= idx < self.entries@.len(),
            self.entries@[idx].id.0@ == k,
        ensures
            self@.dom().contains(k),
            self@[k] == self.entries@[idx].definition,
    {
        self.lemma_distinct();
        lemma_asset_map_of_value(self.entries@, k, idx);
    }

    pub fn new() -> (r: Self)
        ensures
            r@ == Map::<Seq<u8>, AssetDefinition>::empty(),
            r.wf(),
            r.spec_entries().len() == 0,
    {
        let r = AssetRegistry { entries: Vec::new() };
        proof {
            assert(r@ =~= Map::<Seq<u8>, AssetDefinition>::empty());
        }
        r
    }

    pub fn len(&self) -> (n: usize)
        ensures
            n == self.spec_entries().len(),
    {
        self.entries.len()
    }

    pub fn get(&self, id: &AssetId) -> (r: Option<&AssetDefinition>)
        requires
            self.wf(),
        ensures
            match r {
                Some(d) => self@.dom().contains(id.0@) && *d == self@[id.0@],
                None => !self@.dom().contains(id.0@),
            },
    {
        let mut i: usize = 0;
        while i < self.entries.len()
            invariant
                0 <= i <= self.entries@.len(),
                self.wf(),
                forall|j: int| 0 <= j < i ==> self.entries@[j].id.0@ != id.0@,
            decreases self.entries@.len() - i,
        {
            if crate::types::asset_id_eq(&self.entries[i].id, id) {
                proof {
                    self.lemma_match_value(id.0@, i as int);
                }
                return Some(&self.entries[i].definition);
            }
            i = i + 1;
        }
        proof {
            lemma_asset_map_of_dom(self.entries@);
        }
        None
    }

    pub fn contains_key(&self, id: &AssetId) -> (b: bool)
        requires
            self.wf(),
        ensures
            b == self@.dom().contains(id.0@),
    {
        self.get(id).is_some()
    }

    pub fn insert(&mut self, id: AssetId, definition: AssetDefinition)
        requires
            old(self).wf(),
            !old(self)@.dom().contains(id.0@),
        ensures
            final(self).wf(),
            final(self)@ == old(self)@.insert(id.0@, definition),
    {
        let ghost oldself = *self;
        proof {
            lemma_asset_map_of_dom(oldself.entries@);
        }
        let mut idx: usize = 0;
        while idx < self.entries.len() && hash_lt(&self.entries[idx].id.0, &id.0)
            invariant
                0 <= idx <= self.entries@.len(),
                self.wf(),
                self == old(self),
                oldself == *old(self),
                forall|j: int| 0 <= j < idx ==> lex_lt(#[trigger] self.entries@[j].id.0@, id.0@),
            decreases self.entries@.len() - idx,
        {
            idx = idx + 1;
        }
        self.entries.insert(idx, AssetEntry { id, definition });
        proof {
            lemma_map_of_dom_absent_asset(oldself, id.0@);
            lemma_asset_map_of_dom(self.entries@);
            lemma_asset_map_of_dom(oldself.entries@);
            assert forall|i: int, j: int| 0 <= i < j < self.entries@.len() implies lex_lt(
                #[trigger] self.entries@[i].id.0@,
                #[trigger] self.entries@[j].id.0@,
            ) by {
                if j < idx {
                    assert(lex_lt(oldself.entries@[i].id.0@, oldself.entries@[j].id.0@));
                } else if i > idx {
                    assert(lex_lt(oldself.entries@[i - 1].id.0@, oldself.entries@[j - 1].id.0@));
                } else if i < idx && j == idx {
                    assert(lex_lt(oldself.entries@[i].id.0@, id.0@));
                } else if i < idx && j > idx {
                    assert(lex_lt(oldself.entries@[i].id.0@, oldself.entries@[j - 1].id.0@));
                } else if i == idx && j > idx {
                    let e = oldself.entries@[j - 1].id.0@;
                    if idx < oldself.entries@.len() {
                        assert(!lex_lt(oldself.entries@[idx as int].id.0@, id.0@));
                        assert(oldself.entries@[idx as int].id.0@ != id.0@);
                        assert(id.0@.len() == 32 && oldself.entries@[idx as int].id.0@.len() == 32);
                        if !lex_lt(id.0@, oldself.entries@[idx as int].id.0@) {
                            crate::hashing::lemma_lex_connex(
                                id.0@,
                                oldself.entries@[idx as int].id.0@,
                            );
                        }
                        assert(lex_lt(id.0@, oldself.entries@[idx as int].id.0@));
                        if j - 1 > idx {
                            crate::hashing::lemma_lex_trans(
                                id.0@,
                                oldself.entries@[idx as int].id.0@,
                                e,
                            );
                        }
                    }
                }
            }
            assert forall|k: Seq<u8>| self@.dom().contains(k) == old(self)@.insert(
                id.0@,
                definition,
            ).dom().contains(k) by {
                if k != id.0@ {
                    if self@.dom().contains(k) {
                        let i = choose|i: int|
                            0 <= i < self.entries@.len() && self.entries@[i].id.0@ == k;
                        if i < idx {
                            assert(oldself.entries@[i].id.0@ == k);
                        } else {
                            assert(oldself.entries@[i - 1].id.0@ == k);
                        }
                    }
                    if old(self)@.dom().contains(k) {
                        let i = choose|i: int|
                            0 <= i < oldself.entries@.len() && oldself.entries@[i].id.0@ == k;
                        if i < idx {
                            assert(self.entries@[i].id.0@ == k);
                        } else {
                            assert(self.entries@[i + 1].id.0@ == k);
                        }
                    }
                } else {
                    assert(self.entries@[idx as int].id.0@ == k);
                }
            }
            assert forall|k: Seq<u8>| #[trigger] self@.dom().contains(k) implies self@[k] == old(
                self,
            )@.insert(id.0@, definition)[k] by {
                if k == id.0@ {
                    self.lemma_match_value(k, idx as int);
                } else {
                    let i = choose|i: int|
                        0 <= i < self.entries@.len() && self.entries@[i].id.0@ == k;
                    self.lemma_match_value(k, i);
                    if i < idx {
                        oldself.lemma_match_value(k, i);
                    } else {
                        oldself.lemma_match_value(k, i - 1);
                    }
                }
            }
            assert(self@ =~= old(self)@.insert(id.0@, definition));
        }
    }
}

/// An id absent from the registry matches no stored entry.
proof fn lemma_map_of_dom_absent_asset(r: AssetRegistry, k: Seq<u8>)
    requires
        !r@.dom().contains(k),
    ensures
        forall|i: int| 0 <= i < r.entries@.len() ==> (#[trigger] r.entries@[i].id.0@) != k,
{
    lemma_asset_map_of_dom(r.entries@);
}

struct TotalEntry {
    id: AssetId,
    amount: u128,
}

/// Per-asset amount totals accumulated while validating one transaction.
pub struct TotalsMap {
    entries: Vec<TotalEntry>,
}

/// The mapping a sequence of total entries denotes, later entries winning.
spec fn totals_map_of(s: Seq<TotalEntry>) -> Map<Seq<u8>, u128>
    decreases s.len(),
{
    if s.len() == 0 {
        Map::empty()
    } else {
        totals_map_of(s.drop_last()).insert(s.last().id.0@, s.last().amount)
    }
}

proof fn lemma_totals_map_of_dom(s: Seq<TotalEntry>)
    ensures
        forall|k: Seq<u8>|
            totals_map_of(s).dom().contains(k) <==> exists|i: int| 0 <= i < s.len() && s[i].id.0@
                == k,
    decreases s.len(),
{
    if s.len() > 0 {
        lemma_totals_map_of_dom(s.drop_last());
        assert(totals_map_of(s) == totals_map_of(s.drop_last()).insert(
            s.last().id.0@,
            s.last().amount,
        ));
        assert forall|k: Seq<u8>| totals_map_of(s).dom().contains(k) implies exists|i: int|
            0 <= i < s.len() && s[i].id.0@ == k by {
            assert(totals_map_of(s).dom() =~= totals_map_of(s.drop_last()).dom().insert(
                s.last().id.0@,
            ));
            if k == s.last().id.0@ {
                assert(s[s.len() - 1].id.0@ == k);
            } else {
                let i = choose|i: int| 0 <= i < s.drop_last().len() && s.drop_last()[i].id.0@ == k;
                assert(s[i].id.0@ == k);
            }
        }
        assert forall|k: Seq<u8>|
            (exists|i: int| 0 <= i < s.len() && s[i].id.0@ == k) implies totals_map_of(
            s,
        ).dom().contains(k) by {
            let i = choose|i: int| 0 <= i < s.len() && s[i].id.0@ == k;
            if i < s.len() - 1 {
                assert(s.drop_last()[i].id.0@ == k);
                assert(totals_map_of(s.drop_last()).dom().contains(k));
            } else {
                assert(k == s.last().id.0@);
            }
        }
    }
}

proof fn lemma_totals_map_of_value(s: Seq<TotalEntry>, k: Seq<u8>, idx: int)
    requires
        forall|i: int, j: int|
            0 <= i < j < s.len() ==> (#[trigger] s[i].id.0@) != (#[trigger] s[j].id.0@),
        0 <= idx < s.len(),
        s[idx].id.0@ == k,
    ensures
        totals_map_of(s).dom().contains(k),
        totals_map_of(s)[k] == s[idx].amount,
    decreases s.len(),
{
    if idx == s.len() - 1 {
    } else {
        assert(s.last().id.0@ != k);
        assert(s.drop_last()[idx].id.0@ == k);
        assert forall|i: int, j: int| 0 <= i < j < s.drop_last().len() implies (
        #[trigger] s.drop_last()[i].id.0@) != (#[trigger] s.drop_last()[j].id.0@) by {
            assert(s.drop_last()[i] == s[i]);
            assert(s.drop_last()[j] == s[j]);
        }
        lemma_totals_map_of_value(s.drop_last(), k, idx);
    }
}

impl View for TotalsMap {
    type V = Map<Seq<u8>, u128>;

    closed spec fn view(&self) -> Map<Seq<u8>, u128> {
        totals_map_of(self.entries@)
    }
}

impl TotalsMap {
    /// Ids are unique.
    pub closed spec fn wf(self) -> bool {
        forall|i: int, j: int|
            0 <= i < j < self.entries@.len() ==> (#[trigger] self.entries@[i].id.0@) != (
            #[trigger] self.entries@[j].id.0@)
    }

    /// The accumulated totals as mathematical values, in first-seen order.
    pub closed spec fn spec_entries(self) -> Seq<(Seq<u8>, u128)> {
        Seq::new(self.entries@.len(), |i: int| (self.entries@[i].id.0@, self.entries@[i].amount))
    }

    proof fn lemma_match_value(self, k: Seq<u8>, idx: int)
        requires
            self.wf(),
            0 <= idx < self.entries@.len(),
            self.entries@[idx].id.0@ == k,
        ensures
            self@.dom().contains(k),
            self@[k] == self.entries@[idx].amount,
    {
        lemma_totals_map_of_value(self.entries@, k, idx);
    }

    /// The entries all lie in the mapping, and cover it.
    pub proof fn lemma_entries_dom(self)
        requires
            self.wf(),
        ensures
            forall|k: Seq<u8>|
                self@.dom().contains(k) <==> exists|i: int|
                    0 <= i < self.spec_entries().len() && (#[trigger] self.spec_entries()[i]).0
                        == k,
            forall|i: int|
                0 <= i < self.spec_entries().len() ==> self@.dom().contains(
                    (#[trigger] self.spec_entries()[i]).0,
                ) && self@[self.spec_entries()[i].0] == self.spec_entries()[i].1,
    {
        lemma_totals_map_of_dom(self.entries@);
        assert forall|k: Seq<u8>| self@.dom().contains(k) implies exists|i: int|
            0 <= i < self.spec_entries().len() && (#[trigger] self.spec_entries()[i]).0 == k by {
            let i = choose|i: int| 0 <= i < self.entries@.len() && self.entries@[i].id.0@ == k;
            assert(self.spec_entries()[i].0 == k);
        }
        assert forall|k: Seq<u8>|
            (exists|i: int|
                0 <= i < self.spec_entries().len() && (#[trigger] self.spec_entries()[i]).0
                    == k) implies self@.dom().contains(k) by {
            let i = choose|i: int|
                0 <= i < self.spec_entries().len() && self.spec_entries()[i].0 == k;
            assert(self.entries@[i].id.0@ == k);
        }
        assert forall|i: int| 0 <= i < self.spec_entries().len() implies self@.dom().contains(
            (#[trigger] self.spec_entries()[i]).0,
        ) && self@[self.spec_entries()[i].0] == self.spec_entries()[i].1 by {
            self.lemma_match_value(self.entries@[i].id.0@, i);
        }
    }

    pub fn new() -> (r: Self)
        ensures
            r@ == Map::<Seq<u8>, u128>::empty(),
            r.wf(),
            r.spec_entries().len() == 0,
    {
        let r = TotalsMap { entries: Vec::new() };
        proof {
            assert(r@ =~= Map::<Seq<u8>, u128>::empty());
        }
        r
    }

    pub fn len(&self) -> (n: usize)
        ensures
            n == self.spec_entries().len(),
    {
        self.entries.len()
    }

    /// The id and amount of the entry at a position.
    pub fn entry_at(&self, i: usize) -> (r: (AssetId, u128))
        requires
            i < self.spec_entries().len(),
        ensures
            r.0.0@ == self.spec_entries()[i as int].0,
            r.1 == self.spec_entries()[i as int].1,
    {
        (self.entries[i].id, self.entries[i].amount)
    }

    /// Whether any total is recorded for an asset.
    pub fn contains(&self, id: &AssetId) -> (b: bool)
        requires
            self.wf(),
        ensures
            b == self@.dom().contains(id.0@),
    {
        let mut i: usize = 0;
        while i < self.entries.len()
            invariant
                0 <= i <= self.entries@.len(),
                self.wf(),
                forall|j: int| 0 <= j < i ==> self.entries@[j].id.0@ != id.0@,
            decreases self.entries@.len() - i,
        {
            if crate::types::asset_id_eq(&self.entries[i].id, id) {
                proof {
                    self.lemma_match_value(id.0@, i as int);
                }
                return true;
            }
            i = i + 1;
        }
        proof {
            lemma_totals_map_of_dom(self.entries@);
        }
        false
    }

    /// The total recorded for an asset, zero when absent.
    pub fn get_or_zero(&self, id: &AssetId) -> (r: u128)
        requires
            self.wf(),
        ensures
            r == if self@.dom().contains(id.0@) {
                self@[id.0@]
            } else {
                0u128
            },
    {
        let mut i: usize = 0;
        while i < self.entries.len()
            invariant
                0 <= i <= self.entries@.len(),
                self.wf(),
                forall|j: int| 0 <= j < i ==> self.entries@[j].id.0@ != id.0@,
            decreases self.entries@.len() - i,
        {
            if crate::types::asset_id_eq(&self.entries[i].id, id) {
                proof {
                    self.lemma_match_value(id.0@, i as int);
                }
                return self.entries[i].amount;
            }
            i = i + 1;
        }
        proof {
            lemma_totals_map_of_dom(self.entries@);
        }
        0
    }

    /// Adds an amount to an asset's total; reports failure when the total
    /// would exceed the maximum representable amount, leaving the totals
    /// unchanged.
    pub fn accumulate(&mut self, id: &AssetId, amount: u128) -> (ok: bool)
        requires
            old(self).wf(),
        ensures
            final(self).wf(),
            ({
                let cur = if old(self)@.dom().contains(id.0@) {
                    old(self)@[id.0@]
                } else {
                    0u128
                };
                if cur + amount > u128::MAX {
                    ok == false && final(self)@ == old(self)@
                } else {
                    ok == true && final(self)@ == old(self)@.insert(id.0@, (cur + amount) as u128)
                }
            }),
    {
        let ghost oldself = *self;
        let mut i: usize = 0;
        while i < self.entries.len()
            invariant
                0 <= i <= self.entries@.len(),
                self.wf(),
                self == old(self),
                oldself == *old(self),
                forall|j: int| 0 <= j < i ==> self.entries@[j].id.0@ != id.0@,
            decreases self.entries@.len() - i,
        {
            if crate::types::asset_id_eq(&self.entries[i].id, id) {
                proof {
                    self.lemma_match_value(id.0@, i as int);
                }
                let cur = self.entries[i].amount;
                match cur.checked_add(amount) {
                    Some(sum) => {
                        self.entries.set(i, TotalEntry { id: *id, amount: sum });
                        proof {
                            lemma_totals_map_of_dom(self.entries@);
                            lemma_totals_map_of_dom(oldself.entries@);
                            assert forall|a: int, b: int|
                                0 <= a < b < self.entries@.len() implies (
                            #[trigger] self.entries@[a].id.0@) != (
                            #[trigger] self.entries@[b].id.0@) by {
                                assert(oldself.entries@[a].id.0@ != oldself.entries@[b].id.0@);
                            }
                            assert forall|k: Seq<u8>| self@.dom().contains(k) == old(
                                self,
                            )@.insert(id.0@, sum).dom().contains(k) by {
                                if self@.dom().contains(k) {
                                    let a = choose|a: int|
                                        0 <= a < self.entries@.len() && self.entries@[a].id.0@
                                            == k;
                                    assert(oldself.entries@[a].id.0@ == k);
                                }
                                if old(self)@.insert(id.0@, sum).dom().contains(k) && k != id.0@ {
                                    let a = choose|a: int|
                                        0 <= a < oldself.entries@.len()
                                            && oldself.entries@[a].id.0@ == k;
                                    assert(self.entries@[a].id.0@ == k);
                                }
                                if k == id.0@ {
                                    assert(self.entries@[i as int].id.0@ == k);
                                }
                            }
                            assert forall|k: Seq<u8>| #[trigger]
                                self@.dom().contains(k) implies self@[k] == old(self)@.insert(
                                id.0@,
                                sum,
                            )[k] by {
                                if k == id.0@ {
                                    self.lemma_match_value(k, i as int);
                                } else {
                                    let a = choose|a: int|
                                        0 <= a < self.entries@.len() && self.entries@[a].id.0@
                                            == k;
                                    assert(a != i);
                                    self.lemma_match_value(k, a);
                                    oldself.lemma_match_value(k, a);
                                }
                            }
                            assert(self@ =~= old(self)@.insert(id.0@, sum));
                        }
                        return true;
                    },
                    None => {
                        return false;
                    },
                }
            }
            i = i + 1;
        }
        self.entries.push(TotalEntry { id: *id, amount });
        proof {
            lemma_totals_map_of_dom(oldself.entries@);
            assert(!oldself@.dom().contains(id.0@));
            assert forall|a: int, b: int| 0 <= a < b < self.entries@.len() implies (
            #[trigger] self.entries@[a].id.0@) != (#[trigger] self.entries@[b].id.0@) by {
                if b < self.entries@.len() - 1 {
                    assert(oldself.entries@[a].id.0@ != oldself.entries@[b].id.0@);
                } else {
                    assert(oldself.entries@[a].id.0@ != id.0@);
                }
            }
            assert(self.entries@.drop_last() =~= oldself.entries@);
            assert(self@ =~= old(self)@.insert(id.0@, amount));
        }
        true
    }
}


/// Why the ledger rejected a transaction.
#[derive(Debug, Clone, PartialEq, Eq)]
pub enum LedgerError {
    MissingInput,
    MissingWitness,
    DoubleSpend,
    ScriptHashMismatch,
    MetadataHashMismatch,
    InvalidWitness,
    ScriptFailed,
    AssetConservationViolation,
    AssetAlreadyExists,
    MissingIssuerAuthorization,
    MaxSupplyExceeded,
    Other(String),
}

/// Canonical encoding of one input's witness: the authorization script,
/// then a presence-tagged metadata preimage.
pub open spec fn spec_encode_input_witness(ops: Seq<OpCodeView>, metadata: Option<Seq<u8>>) -> Seq<
    u8,
> {
    spec_encode_script(ops) + (match metadata {
        None => seq![0u8],
        Some(m) => seq![1u8] + vstd::bytes::spec_u32_to_le_bytes(m.len() as u32) + m,
    })
}

/// Parses a whole witness blob; the script, then the optional metadata
/// preimage, with nothing left over.
pub open spec fn spec_decode_input_witness(bytes: Seq<u8>) -> Option<
    (Seq<OpCodeView>, Option<Seq<u8>>),
> {
    match spec_decode_script(bytes, 0) {
        None => None,
        Some((ops, p)) => if p >= bytes.len() {
            None
        } else {
            let tag = bytes[p];
            if tag == 0u8 {
                if p + 1 == bytes.len() {
                    Some((ops, None))
                } else {
                    None
                }
            } else if tag == 1u8 {
                if p + 5 <= bytes.len() {
                    let len = vstd::bytes::spec_u32_from_le_bytes(bytes.subrange(p + 1, p + 5));
                    if p + 5 + len == bytes.len() {
                        Some((ops, Some(bytes.subrange(p + 5, p + 5 + len))))
                    } else {
                        None
                    }
                } else {
                    None
                }
            } else {
                None
            }
        },
    }
}

/// Serializes a witness: the script's canonical encoding, then the tagged
/// metadata preimage.
pub fn encode_input_witness(script: &Script, metadata: &Option<Vec<u8>>) -> (r: Vec<u8>)
    requires
        script_encodable(script@),
        metadata matches Some(m) ==> m@.len() <= u32::MAX,
    ensures
        r@ == spec_encode_input_witness(
            script@,
            match metadata {
                Some(m) => Some(m@),
                None => None,
            },
        ),
{
    let mut out = crate::script::encode_script(script);
    match metadata {
        None => out.push(0u8),
        Some(m) => {
            out.push(1u8);
            crate::codec::encode_len(m.len(), &mut out);
            crate::codec::push_bytes(&mut out, m.as_slice());
        },
    }
    proof {
        assert(out@ =~= spec_encode_input_witness(
            script@,
            match metadata {
                Some(m) => Some(m@),
                None => None,
            },
        ));
    }
    out
}

/// Parses a witness blob into its script and optional metadata preimage.
pub fn decode_input_witness(bytes: &[u8]) -> (r: Option<(Script, Option<Vec<u8>>)>)
    ensures
        match r {
            Some((script, metadata)) => spec_decode_input_witness(bytes@) matches Some(p)
                && script@ == p.0 && (match (metadata, p.1) {
                (Some(m), Some(q)) => m@ == q,
                (None, None) => true,
                _ => false,
            }) && script_encodable(script@),
            None => spec_decode_input_witness(bytes@) is None,
        },
{
    let (script, p) = match crate::script::decode_script(bytes, 0) {
        Some(x) => x,
        None => {
            return None;
        },
    };
    if p >= bytes.len() {
        return None;
    }
    let tag = bytes[p];
    if tag == 0 {
        if p + 1 == bytes.len() {
            Some((script, None))
        } else {
            None
        }
    } else if tag == 1 {
        if bytes.len() - p >= 5 {
            let len_slice = vstd::slice::slice_subrange(bytes, p + 1, p + 5);
            let len = vstd::bytes::u32_from_le_bytes(len_slice) as usize;
            if bytes.len() - (p + 5) == len {
                let data_slice = vstd::slice::slice_subrange(bytes, p + 5, p + 5 + len);
                let mut data: Vec<u8> = Vec::new();
                crate::codec::push_bytes(&mut data, data_slice);
                proof {
                    assert(data@ =~= bytes@.subrange(p + 5, p + 5 + len));
                }
                Some((script, Some(data)))
            } else {
                None
            }
        } else {
            None
        }
    } else {
        None
    }
}

/// The host view a UTXO set provides to scripts: every recorded output is
/// resolvable, with its creation height.
pub open spec fn spec_host_view(utxos: Map<UtxoKeyView, TrackedOutputView>) -> Map<
    TransactionInput,
    ResolvedInputView,
> {
    Map::new(
        |inp: TransactionInput|
            utxos.dom().contains(UtxoKeyView { tx_id: inp.tx_id@, index: inp.index }),
        |inp: TransactionInput|
            ResolvedInputView {
                output: utxos[UtxoKeyView { tx_id: inp.tx_id@, index: inp.index }].output,
                created_height: Some(
                    utxos[UtxoKeyView { tx_id: inp.tx_id@, index: inp.index }].created_height,
                ),
            },
    )
}

/// Resolves script lookups against a borrowed UTXO set at a fixed height.
pub struct LedgerScriptHost<'a> {
    utxos: &'a UtxoMap,
    current_height: u64,
}

impl<'a> LedgerScriptHost<'a> {
    #[verifier::type_invariant]
    spec fn inv(self) -> bool {
        self.utxos.wf()
    }

    pub fn new(utxos: &'a UtxoMap, current_height: u64) -> (r: Self)
        requires
            utxos.wf(),
        ensures
            r.spec_height() == Some(current_height),
            r.spec_utxos() == spec_host_view(utxos@),
    {
        LedgerScriptHost { utxos, current_height }
    }
}

impl<'a> ScriptHost for LedgerScriptHost<'a> {
    closed spec fn spec_height(&self) -> Option<u64> {
        Some(self.current_height)
    }

    closed spec fn spec_utxos(&self) -> Map<TransactionInput, ResolvedInputView> {
        spec_host_view(self.utxos@)
    }

    fn current_height(&self) -> (r: Option<u64>) {
        Some(self.current_height)
    }

    fn input_utxo(&self, input: &TransactionInput) -> (r: Option<ResolvedInput>) {
        proof {
            use_type_invariant(&*self);
        }
        let key = UtxoKey { tx_id: input.tx_id, index: input.index };
        match self.utxos.get(&key) {
            Some(tracked_out) => {
                let r = ResolvedInput {
                    output: crate::types::copy_output(&tracked_out.output),
                    created_height: Some(tracked_out.created_height),
                };
                proof {
                    assert(key@ =~= UtxoKeyView { tx_id: input.tx_id@, index: input.index });
                    assert(r@ =~= self.spec_utxos()[*input]);
                }
                Some(r)
            },
            None => {
                proof {
                    assert(key@ =~= UtxoKeyView { tx_id: input.tx_id@, index: input.index });
                }
                None
            },
        }
    }
}


/// The asset a transaction creates: its derived id bytes, definition and
/// declared initial supply.
pub open spec fn spec_created_asset(
    kind: TransactionKind,
    chain_id: u32,
) -> Option<(Seq<u8>, AssetDefinition, u128)> {
    match kind {
        TransactionKind::CreateAsset { definition, initial_supply } => Some(
            (spec_derive_asset_id(definition, chain_id), definition, initial_supply),
        ),
        TransactionKind::Transfer => None,
    }
}

/// Whether a spent output authorizes creating the asset: its owning script
/// is the declared issuer script, or it already carries the new asset id.
pub open spec fn spec_issuer_authorizes(
    output: OutputView,
    created: Option<(Seq<u8>, AssetDefinition, u128)>,
) -> bool {
    match created {
        Some((id_bytes, definition, _)) => output.owner_script_hash@
            == definition.issuer_script_hash@ || (exists|i: int|
            0 <= i < output.assets.len() && (#[trigger] output.assets[i]).asset_id.0@ == id_bytes),
        None => false,
    }
}

/// An output's metadata commitment must be matched by the witness preimage,
/// or both must be absent.
pub open spec fn spec_metadata_ok(expected: Option<Hash256>, supplied: Option<Seq<u8>>) -> bool {
    match (expected, supplied) {
        (Some(e), Some(bytes)) => e@ == spec_content_hash(bytes),
        (None, None) => true,
        _ => false,
    }
}

/// Adds a list of asset amounts into per-asset totals; `None` when a total
/// would exceed the maximum representable amount.
pub open spec fn spec_accumulate_assets(
    totals: Map<Seq<u8>, u128>,
    assets: Seq<AssetAmount>,
) -> Option<Map<Seq<u8>, u128>>
    decreases assets.len(),
{
    if assets.len() == 0 {
        Some(totals)
    } else {
        let a = assets[0];
        let cur = if totals.dom().contains(a.asset_id.0@) {
            totals[a.asset_id.0@]
        } else {
            0u128
        };
        if cur + a.amount > u128::MAX {
            None
        } else {
            spec_accumulate_assets(
                totals.insert(a.asset_id.0@, (cur + a.amount) as u128),
                assets.drop_first(),
            )
        }
    }
}

/// Adds every output's amounts into per-asset totals, from output `j` on.
pub open spec fn spec_accumulate_outputs(
    totals: Map<Seq<u8>, u128>,
    outputs: Seq<OutputView>,
    j: int,
) -> Option<Map<Seq<u8>, u128>>
    decreases outputs.len() - j,
{
    if j < 0 || j >= outputs.len() {
        Some(totals)
    } else {
        match spec_accumulate_assets(totals, outputs[j].assets) {
            None => None,
            Some(t2) => spec_accumulate_outputs(t2, outputs, j + 1),
        }
    }
}

/// The storage key an input refers to.
pub open spec fn spec_input_key(inp: TransactionInput) -> UtxoKeyView {
    UtxoKeyView { tx_id: inp.tx_id@, index: inp.index }
}

/// The keys of the first `i` inputs.
pub open spec fn spec_seen_keys(inputs: Seq<TransactionInput>, i: int) -> Set<UtxoKeyView> {
    Set::new(
        |k: UtxoKeyView| exists|j: int| 0 <= j < i && j < inputs.len() && spec_input_key(#[trigger] inputs[j]) == k,
    )
}

/// Validation of the inputs from position `i` on: double-spend and presence
/// checks, witness decoding, script-hash and metadata commitments, script
/// evaluation, and accumulation of the consumed amounts. Yields the input
/// totals and whether issuer authorization was seen.
pub open spec fn spec_process_inputs<E: ScriptEngine>(
    engine: E,
    utxos: Map<UtxoKeyView, TrackedOutputView>,
    tx: TransactionView,
    current_height: u64,
    chain_id: u32,
    created: Option<(Seq<u8>, AssetDefinition, u128)>,
    i: int,
    seen: Set<UtxoKeyView>,
    totals: Map<Seq<u8>, u128>,
    authorized: bool,
) -> Result<(Map<Seq<u8>, u128>, bool), LedgerError>
    decreases tx.core.inputs.len() - i,
{
    if i < 0 || i >= tx.core.inputs.len() {
        Ok((totals, authorized))
    } else {
        let inp = tx.core.inputs[i];
        let key = spec_input_key(inp);
        if seen.contains(key) {
            Err(LedgerError::DoubleSpend)
        } else if !utxos.dom().contains(key) {
            Err(LedgerError::MissingInput)
        } else {
            let tracked_out = utxos[key];
            if i >= tx.witness.len() {
                Err(LedgerError::MissingWitness)
            } else {
                match spec_decode_input_witness(tx.witness[i]) {
                    None => Err(LedgerError::InvalidWitness),
                    Some((wops, wmeta)) => if spec_content_hash(spec_encode_script(wops))
                        != tracked_out.output.owner_script_hash@ {
                        Err(LedgerError::ScriptHashMismatch)
                    } else {
                        let authorized2 = authorized || spec_issuer_authorizes(
                            tracked_out.output,
                            created,
                        );
                        if !spec_metadata_ok(tracked_out.output.metadata_hash, wmeta) {
                            Err(LedgerError::MetadataHashMismatch)
                        } else if engine.spec_eval(
                            wops,
                            tx.core,
                            i as usize,
                            Some(current_height),
                            chain_id,
                            tracked_out.output.owner_script_hash,
                            Some(current_height),
                            spec_host_view(utxos),
                        ) is Err {
                            Err(LedgerError::ScriptFailed)
                        } else {
                            match spec_accumulate_assets(totals, tracked_out.output.assets) {
                                None => Err(LedgerError::AssetConservationViolation),
                                Some(t2) => spec_process_inputs(
                                    engine,
                                    utxos,
                                    tx,
                                    current_height,
                                    chain_id,
                                    created,
                                    i + 1,
                                    seen.insert(key),
                                    t2,
                                    authorized2,
                                ),
                            }
                        }
                    },
                }
            }
        }
    }
}

/// For every asset other than the one being created, input total equals
/// output total, and nothing positive appears from nowhere.
pub open spec fn spec_conservation_ok(
    in_totals: Map<Seq<u8>, u128>,
    out_totals: Map<Seq<u8>, u128>,
    exclude: Option<Seq<u8>>,
) -> bool {
    &&& forall|id: Seq<u8>|
        #[trigger] in_totals.dom().contains(id) && exclude != Some(id) ==> in_totals[id] == (
        if out_totals.dom().contains(id) {
            out_totals[id]
        } else {
            0u128
        })
    &&& forall|id: Seq<u8>|
        #[trigger] out_totals.dom().contains(id) && exclude != Some(id)
            && !in_totals.dom().contains(id) ==> out_totals[id] == 0u128
}

/// Inserts one UTXO per output, keyed by the transaction id and the output's
/// position, from output `j` on.
pub open spec fn spec_insert_outputs(
    m: Map<UtxoKeyView, TrackedOutputView>,
    txid: Seq<u8>,
    outputs: Seq<OutputView>,
    height: u64,
    j: int,
) -> Map<UtxoKeyView, TrackedOutputView>
    decreases outputs.len() - j,
{
    if j < 0 || j >= outputs.len() {
        m
    } else {
        spec_insert_outputs(
            m.insert(
                UtxoKeyView { tx_id: txid, index: j as u32 },
                TrackedOutputView { output: outputs[j], created_height: height },
            ),
            txid,
            outputs,
            height,
            j + 1,
        )
    }
}

/// Applying one transaction to a ledger state: the full validation pipeline
/// and, on success, the atomically mutated UTXO set and asset registry.
pub open spec fn spec_apply_transaction<E: ScriptEngine>(
    engine: E,
    utxos: Map<UtxoKeyView, TrackedOutputView>,
    assets: Map<Seq<u8>, AssetDefinition>,
    tx: TransactionView,
    current_height: u64,
    chain_id: u32,
) -> Result<(Map<UtxoKeyView, TrackedOutputView>, Map<Seq<u8>, AssetDefinition>), LedgerError> {
    let created = spec_created_asset(tx.core.kind, chain_id);
    if created matches Some((id_bytes, _, _)) && assets.dom().contains(id_bytes) {
        Err(LedgerError::AssetAlreadyExists)
    } else {
        match spec_process_inputs(
            engine,
            utxos,
            tx,
            current_height,
            chain_id,
            created,
            0,
            Set::empty(),
            Map::empty(),
            false,
        ) {
            Err(e) => Err(e),
            Ok((in_totals, authorized)) => match spec_accumulate_outputs(
                Map::empty(),
                tx.core.outputs,
                0,
            ) {
                None => Err(LedgerError::AssetConservationViolation),
                Some(out_totals) => {
                    let created_check: Result<(), LedgerError> = match created {
                        Some((id_bytes, definition, supply)) => {
                            let minted = if out_totals.dom().contains(id_bytes) {
                                out_totals[id_bytes]
                            } else {
                                0u128
                            };
                            if minted != supply {
                                Err(LedgerError::AssetConservationViolation)
                            } else if definition.max_supply matches Some(max) && minted > max {
                                Err(LedgerError::MaxSupplyExceeded)
                            } else if (if in_totals.dom().contains(id_bytes) {
                                in_totals[id_bytes]
                            } else {
                                0u128
                            }) != 0 {
                                Err(LedgerError::AssetConservationViolation)
                            } else if !authorized {
                                Err(LedgerError::MissingIssuerAuthorization)
                            } else {
                                Ok(())
                            }
                        },
                        None => Ok(()),
                    };
                    match created_check {
                        Err(e) => Err(e),
                        Ok(_) => {
                            let exclude = match created {
                                Some((id_bytes, _, _)) => Some(id_bytes),
                                None => None,
                            };
                            if !spec_conservation_ok(in_totals, out_totals, exclude) {
                                Err(LedgerError::AssetConservationViolation)
                            } else {
                                let assets2 = match created {
                                    Some((id_bytes, definition, _)) => assets.insert(
                                        id_bytes,
                                        definition,
                                    ),
                                    None => assets,
                                };
                                let u2 = spec_insert_outputs(
                                    utxos.remove_keys(
                                        spec_seen_keys(tx.core.inputs, tx.core.inputs.len() as int),
                                    ),
                                    spec_tx_id(tx.core),
                                    tx.core.outputs,
                                    current_height,
                                    0,
                                );
                                Ok((u2, assets2))
                            }
                        },
                    }
                },
            },
        }
    }
}

/// Whether any of the first keys in the list equals the given key.
fn key_vec_contains(keys: &Vec<UtxoKey>, key: &UtxoKey) -> (b: bool)
    ensures
        b == exists|j: int| 0 <= j < keys@.len() && (#[trigger] keys@[j])@ == key@,
{
    let mut i: usize = 0;
    while i < keys.len()
        invariant
            0 <= i <= keys@.len(),
            forall|j: int| 0 <= j < i ==> (#[trigger] keys@[j])@ != key@,
        decreases keys@.len() - i,
    {
        if utxo_key_eq(&keys[i], key) {
            return true;
        }
        i = i + 1;
    }
    false
}

/// Whether an output carries any amount of the given asset.
fn output_carries_asset(output: &Output, id: &AssetId) -> (b: bool)
    ensures
        b == exists|i: int|
            0 <= i < output@.assets.len() && (#[trigger] output@.assets[i]).asset_id.0@ == id.0@,
{
    let mut i: usize = 0;
    while i < output.assets.len()
        invariant
            0 <= i <= output.assets@.len(),
            forall|j: int| 0 <= j < i ==> (#[trigger] output.assets@[j]).asset_id.0@ != id.0@,
        decreases output.assets@.len() - i,
    {
        if crate::types::asset_id_eq(&output.assets[i].asset_id, id) {
            proof {
                assert(output@.assets[i as int].asset_id.0@ == id.0@);
            }
            return true;
        }
        i = i + 1;
    }
    proof {
        assert(forall|j: int|
            0 <= j < output@.assets.len() ==> (#[trigger] output@.assets[j]).asset_id.0@ != id.0@);
    }
    false
}

/// Adds one attached amount into the running totals; reports failure when
/// the total would exceed the maximum representable amount.
pub fn accumulate_asset(totals: &mut TotalsMap, asset: &AssetAmount) -> (ok: bool)
    requires
        old(totals).wf(),
    ensures
        final(totals).wf(),
        ({
            let cur = if old(totals)@.dom().contains(asset.asset_id.0@) {
                old(totals)@[asset.asset_id.0@]
            } else {
                0u128
            };
            if cur + asset.amount > u128::MAX {
                ok == false && final(totals)@ == old(totals)@
            } else {
                ok == true && final(totals)@ == old(totals)@.insert(
                    asset.asset_id.0@,
                    (cur + asset.amount) as u128,
                )
            }
        }),
{
    totals.accumulate(&asset.asset_id, asset.amount)
}


/// A helper invariant piece: input-totals entry `j` satisfies conservation
/// against the output totals, unless it is the excluded (created) asset.
pub open spec fn spec_in_entry_ok(
    entries: Seq<(Seq<u8>, u128)>,
    out_totals: Map<Seq<u8>, u128>,
    exclude: Option<Seq<u8>>,
    j: int,
) -> bool {
    exclude == Some(entries[j].0) || entries[j].1 == (if out_totals.dom().contains(entries[j].0) {
        out_totals[entries[j].0]
    } else {
        0u128
    })
}

/// A helper invariant piece: output-totals entry `j` is covered by the input
/// totals or zero, unless it is the excluded (created) asset.
pub open spec fn spec_out_entry_ok(
    entries: Seq<(Seq<u8>, u128)>,
    in_totals: Map<Seq<u8>, u128>,
    exclude: Option<Seq<u8>>,
    j: int,
) -> bool {
    exclude == Some(entries[j].0) || in_totals.dom().contains(entries[j].0) || entries[j].1 == 0u128
}

/// Adds every amount attached to one output into the running totals;
/// reports failure when a total would exceed the maximum representable
/// amount.
#[verifier::loop_isolation(false)]
fn accumulate_output_assets(totals: &mut TotalsMap, assets: &Vec<AssetAmount>) -> (ok: bool)
    requires
        old(totals).wf(),
    ensures
        final(totals).wf(),
        match spec_accumulate_assets(old(totals)@, assets@) {
            None => ok == false,
            Some(t2) => ok == true && final(totals)@ == t2,
        },
{
    let ghost t0 = totals@;
    let mut i: usize = 0;
    proof {
        assert(assets@.skip(0) =~= assets@);
    }
    while i < assets.len()
        invariant
            0 <= i <= assets@.len(),
            totals.wf(),
            spec_accumulate_assets(t0, assets@) == spec_accumulate_assets(
                totals@,
                assets@.skip(i as int),
            ),
        decreases assets@.len() - i,
    {
        let ghost tcur = totals@;
        let a = assets[i];
        let ok = totals.accumulate(&a.asset_id, a.amount);
        proof {
            assert(assets@.skip(i as int).len() > 0);
            assert(assets@.skip(i as int)[0] == assets@[i as int]);
            assert(assets@.skip(i as int).drop_first() =~= assets@.skip(i + 1));
        }
        if !ok {
            proof {
                assert(spec_accumulate_assets(tcur, assets@.skip(i as int)) is None);
            }
            return false;
        }
        i = i + 1;
    }
    proof {
        assert(assets@.skip(assets@.len() as int) =~= Seq::<AssetAmount>::empty());
        assert(spec_accumulate_assets(totals@, assets@.skip(assets@.len() as int)) == Some::<
            Map<Seq<u8>, u128>,
        >(totals@));
    }
    true
}

/// The whole ledger state: the UTXO set and the asset registry. Mutated
/// only through `apply_transaction`, all-or-nothing.
pub struct LedgerState {
    pub utxos: UtxoMap,
    pub assets: AssetRegistry,
}

impl LedgerState {
    /// Both collections keep their sorted, duplicate-free form.
    pub open spec fn wf(self) -> bool {
        self.utxos.wf() && self.assets.wf()
    }
}

impl Default for LedgerState {
    fn default() -> (r: Self)
        ensures
            r.wf(),
            r.utxos@ == Map::<UtxoKeyView, TrackedOutputView>::empty(),
            r.assets@ == Map::<Seq<u8>, AssetDefinition>::empty(),
            r.utxos.spec_entries().len() == 0,
            r.assets.spec_entries().len() == 0,
    {
        LedgerState { utxos: UtxoMap::new(), assets: AssetRegistry::new() }
    }
}

impl LedgerState {
    /// Applies one transaction, enforcing every validation rule; the state
    /// is mutated only if the whole transaction is accepted, and then
    /// exactly as the mathematical pipeline says.
    #[verifier::loop_isolation(false)]
    #[verifier::rlimit(100)]
    pub fn apply_transaction<E: ScriptEngine>(
        &mut self,
        tx: &Transaction,
        engine: &E,
        current_height: u64,
        chain_id: u32,
    ) -> (r: Result<(), LedgerError>)
        requires
            old(self).wf(),
            crate::codec::tx_core_encodable(tx.core@),
        ensures
            final(self).wf(),
            match spec_apply_transaction(
                *engine,
                old(self).utxos@,
                old(self).assets@,
                tx@,
                current_height,
                chain_id,
            ) {
                Ok((u, a)) => r == Ok::<(), LedgerError>(()) && final(self).utxos@ == u
                    && final(self).assets@ == a,
                Err(e) => r == Err::<(), LedgerError>(e) && final(self).utxos@ == old(self).utxos@
                    && final(self).assets@ == old(self).assets@,
            },
    {
        let ghost u0 = self.utxos@;
        let ghost a0 = self.assets@;
        let ghost created_v = spec_created_asset(tx@.core.kind, chain_id);
        let created: Option<(AssetId, AssetDefinition, u128)> = match &tx.core.kind {
            TransactionKind::CreateAsset { definition, initial_supply } => {
                let id = derive_asset_id(definition, chain_id);
                if self.assets.contains_key(&id) {
                    proof {
                        assert(spec_apply_transaction(
                            *engine,
                            u0,
                            a0,
                            tx@,
                            current_height,
                            chain_id,
                        ) == Err::<
                            (Map<UtxoKeyView, TrackedOutputView>, Map<Seq<u8>, AssetDefinition>),
                            LedgerError,
                        >(LedgerError::AssetAlreadyExists));
                    }
                    return Err(LedgerError::AssetAlreadyExists);
                }
                Some((id, *definition, *initial_supply))
            },
            TransactionKind::Transfer => None,
        };
        proof {
            match created {
                Some((id, d, sup)) => {
                    assert(created_v == Some::<(Seq<u8>, AssetDefinition, u128)>((id.0@, d, sup)));
                },
                None => {
                    assert(created_v is None);
                },
            }
            assert(!(created_v matches Some((idb, _, _)) && a0.dom().contains(idb)));
        }
        let ghost exclude_v: Option<Seq<u8>> = match created_v {
            Some((idb, _, _)) => Some(idb),
            None => None,
        };
        let host = LedgerScriptHost::new(&self.utxos, current_height);
        let mut spent: Vec<UtxoKey> = Vec::new();
        let mut in_totals = TotalsMap::new();
        let mut authorized = false;
        let mut idx: usize = 0;
        proof {
            assert(spec_seen_keys(tx@.core.inputs, 0) =~= Set::<UtxoKeyView>::empty());
        }
        while idx < tx.core.inputs.len()
            invariant
                0 <= idx <= tx.core.inputs@.len(),
                spent@.len() == idx,
                forall|j: int|
                    0 <= j < idx ==> (#[trigger] spent@[j])@ == spec_input_key(tx@.core.inputs[j]),
                in_totals.wf(),
                spec_process_inputs(
                    *engine,
                    u0,
                    tx@,
                    current_height,
                    chain_id,
                    created_v,
                    0,
                    Set::empty(),
                    Map::empty(),
                    false,
                ) == spec_process_inputs(
                    *engine,
                    u0,
                    tx@,
                    current_height,
                    chain_id,
                    created_v,
                    idx as int,
                    spec_seen_keys(tx@.core.inputs, idx as int),
                    in_totals@,
                    authorized,
                ),
            decreases tx.core.inputs@.len() - idx,
        {
            let ghost seen_g = spec_seen_keys(tx@.core.inputs, idx as int);
            let ghost t_pre = in_totals@;
            let ghost auth_pre = authorized;
            let input = &tx.core.inputs[idx];
            let key = UtxoKey { tx_id: input.tx_id, index: input.index };
            proof {
                assert(key@ =~= spec_input_key(tx@.core.inputs[idx as int]));
            }
            if key_vec_contains(&spent, &key) {
                proof {
                    assert(seen_g.contains(key@));
                    assert(spec_apply_transaction(*engine, u0, a0, tx@, current_height, chain_id)
                        == Err::<
                        (Map<UtxoKeyView, TrackedOutputView>, Map<Seq<u8>, AssetDefinition>),
                        LedgerError,
                    >(LedgerError::DoubleSpend));
                }
                return Err(LedgerError::DoubleSpend);
            }
            proof {
                if seen_g.contains(key@) {
                    let j = choose|j: int|
                        0 <= j < idx && j < tx@.core.inputs.len() && spec_input_key(
                            tx@.core.inputs[j],
                        ) == key@;
                    assert(spent@[j]@ == key@);
                    assert(false);
                }
            }
            let referenced = match self.utxos.get(&key) {
                Some(t) => t,
                None => {
                    proof {
                        assert(spec_apply_transaction(
                            *engine,
                            u0,
                            a0,
                            tx@,
                            current_height,
                            chain_id,
                        ) == Err::<
                            (Map<UtxoKeyView, TrackedOutputView>, Map<Seq<u8>, AssetDefinition>),
                            LedgerError,
                        >(LedgerError::MissingInput));
                    }
                    return Err(LedgerError::MissingInput);
                },
            };
            if idx >= tx.witness.inputs.len() {
                proof {
                    assert(idx >= tx@.witness.len());
                    assert(spec_apply_transaction(*engine, u0, a0, tx@, current_height, chain_id)
                        == Err::<
                        (Map<UtxoKeyView, TrackedOutputView>, Map<Seq<u8>, AssetDefinition>),
                        LedgerError,
                    >(LedgerError::MissingWitness));
                }
                return Err(LedgerError::MissingWitness);
            }
            proof {
                assert(tx@.witness[idx as int] == tx.witness.inputs@[idx as int]@);
            }
            let (wscript, wmeta) = match decode_input_witness(tx.witness.inputs[idx].as_slice()) {
                Some(x) => x,
                None => {
                    proof {
                        assert(spec_apply_transaction(
                            *engine,
                            u0,
                            a0,
                            tx@,
                            current_height,
                            chain_id,
                        ) == Err::<
                            (Map<UtxoKeyView, TrackedOutputView>, Map<Seq<u8>, AssetDefinition>),
                            LedgerError,
                        >(LedgerError::InvalidWitness));
                    }
                    return Err(LedgerError::InvalidWitness);
                },
            };
            let encoded = crate::script::encode_script(&wscript);
            let script_hash = hash_bytes(encoded.as_slice());
            if !hash_eq(&script_hash, &referenced.output.owner_script_hash) {
                proof {
                    assert(spec_apply_transaction(*engine, u0, a0, tx@, current_height, chain_id)
                        == Err::<
                        (Map<UtxoKeyView, TrackedOutputView>, Map<Seq<u8>, AssetDefinition>),
                        LedgerError,
                    >(LedgerError::ScriptHashMismatch));
                }
                return Err(LedgerError::ScriptHashMismatch);
            }
            if let Some((cid, cdef, _)) = &created {
                if hash_eq(&referenced.output.owner_script_hash, &cdef.issuer_script_hash) {
                    authorized = true;
                }
                if output_carries_asset(&referenced.output, cid) {
                    authorized = true;
                }
            }
            proof {
                assert(authorized == (auth_pre || spec_issuer_authorizes(
                    u0[key@].output,
                    created_v,
                )));
            }
            match (&referenced.output.metadata_hash, &wmeta) {
                (Some(expected), Some(bytes)) => {
                    let supplied_hash = hash_bytes(bytes.as_slice());
                    if !hash_eq(expected, &supplied_hash) {
                        proof {
                            assert(!spec_metadata_ok(
                                u0[key@].output.metadata_hash,
                                Some(bytes@),
                            ));
                            assert(spec_apply_transaction(
                                *engine,
                                u0,
                                a0,
                                tx@,
                                current_height,
                                chain_id,
                            ) == Err::<
                                (
                                    Map<UtxoKeyView, TrackedOutputView>,
                                    Map<Seq<u8>, AssetDefinition>,
                                ),
                                LedgerError,
                            >(LedgerError::MetadataHashMismatch));
                        }
                        return Err(LedgerError::MetadataHashMismatch);
                    }
                },
                (None, None) => {},
                _ => {
                    proof {
                        assert(spec_apply_transaction(
                            *engine,
                            u0,
                            a0,
                            tx@,
                            current_height,
                            chain_id,
                        ) == Err::<
                            (Map<UtxoKeyView, TrackedOutputView>, Map<Seq<u8>, AssetDefinition>),
                            LedgerError,
                        >(LedgerError::MetadataHashMismatch));
                    }
                    return Err(LedgerError::MetadataHashMismatch);
                },
            }
            let ctx = crate::script::ScriptContext {
                tx: crate::types::copy_transaction(tx),
                input_index: idx,
                current_height: Some(current_height),
                chain_id,
                script_hash: referenced.output.owner_script_hash,
            };
            match engine.eval(&wscript, &ctx, &host) {
                Ok(_) => {},
                Err(_) => {
                    proof {
                        assert(engine.spec_eval(
                            wscript@,
                            tx@.core,
                            idx,
                            Some(current_height),
                            chain_id,
                            u0[key@].output.owner_script_hash,
                            Some(current_height),
                            spec_host_view(u0),
                        ) is Err);
                        assert(spec_apply_transaction(
                            *engine,
                            u0,
                            a0,
                            tx@,
                            current_height,
                            chain_id,
                        ) == Err::<
                            (Map<UtxoKeyView, TrackedOutputView>, Map<Seq<u8>, AssetDefinition>),
                            LedgerError,
                        >(LedgerError::ScriptFailed));
                    }
                    return Err(LedgerError::ScriptFailed);
                },
            }
            proof {
                assert(engine.spec_eval(
                    wscript@,
                    tx@.core,
                    idx,
                    Some(current_height),
                    chain_id,
                    u0[key@].output.owner_script_hash,
                    Some(current_height),
                    spec_host_view(u0),
                ) is Ok);
            }
            let ok = accumulate_output_assets(&mut in_totals, &referenced.output.assets);
            if !ok {
                proof {
                    assert(spec_accumulate_assets(t_pre, u0[key@].output.assets) is None);
                    assert(spec_apply_transaction(*engine, u0, a0, tx@, current_height, chain_id)
                        == Err::<
                        (Map<UtxoKeyView, TrackedOutputView>, Map<Seq<u8>, AssetDefinition>),
                        LedgerError,
                    >(LedgerError::AssetConservationViolation));
                }
                return Err(LedgerError::AssetConservationViolation);
            }
            spent.push(key);
            proof {
                assert(spec_seen_keys(tx@.core.inputs, idx + 1) =~= seen_g.insert(key@));
                assert(spec_process_inputs(
                    *engine,
                    u0,
                    tx@,
                    current_height,
                    chain_id,
                    created_v,
                    idx as int,
                    seen_g,
                    t_pre,
                    auth_pre,
                ) == spec_process_inputs(
                    *engine,
                    u0,
                    tx@,
                    current_height,
                    chain_id,
                    created_v,
                    idx + 1,
                    seen_g.insert(key@),
                    in_totals@,
                    authorized,
                ));
            }
            idx = idx + 1;
        }
        proof {
            assert(spec_process_inputs(
                *engine,
                u0,
                tx@,
                current_height,
                chain_id,
                created_v,
                0,
                Set::empty(),
                Map::empty(),
                false,
            ) == Ok::<(Map<Seq<u8>, u128>, bool), LedgerError>((in_totals@, authorized)));
        }
        let ghost in_final = in_totals@;
        let ghost auth_final = authorized;
        let mut out_totals = TotalsMap::new();
        let mut oj: usize = 0;
        while oj < tx.core.outputs.len()
            invariant
                0 <= oj <= tx.core.outputs@.len(),
                out_totals.wf(),
                spec_accumulate_outputs(Map::empty(), tx@.core.outputs, 0)
                    == spec_accumulate_outputs(out_totals@, tx@.core.outputs, oj as int),
            decreases tx.core.outputs@.len() - oj,
        {
            let ghost o_pre = out_totals@;
            let ok = accumulate_output_assets(&mut out_totals, &tx.core.outputs[oj].assets);
            proof {
                assert(tx@.core.outputs[oj as int].assets == tx.core.outputs@[oj as int].assets@);
            }
            if !ok {
                proof {
                    assert(spec_accumulate_assets(o_pre, tx@.core.outputs[oj as int].assets)
                        is None);
                    assert(spec_accumulate_outputs(Map::empty(), tx@.core.outputs, 0) is None);
                    assert(spec_apply_transaction(*engine, u0, a0, tx@, current_height, chain_id)
                        == Err::<
                        (Map<UtxoKeyView, TrackedOutputView>, Map<Seq<u8>, AssetDefinition>),
                        LedgerError,
                    >(LedgerError::AssetConservationViolation));
                }
                return Err(LedgerError::AssetConservationViolation);
            }
            oj = oj + 1;
        }
        proof {
            assert(spec_accumulate_outputs(Map::empty(), tx@.core.outputs, 0) == Some::<
                Map<Seq<u8>, u128>,
            >(out_totals@));
        }
        let ghost out_final = out_totals@;
        if let Some((cid, cdef, csupply)) = &created {
            let minted = out_totals.get_or_zero(cid);
            if minted != *csupply {
                proof {
                    assert(spec_apply_transaction(*engine, u0, a0, tx@, current_height, chain_id)
                        == Err::<
                        (Map<UtxoKeyView, TrackedOutputView>, Map<Seq<u8>, AssetDefinition>),
                        LedgerError,
                    >(LedgerError::AssetConservationViolation));
                }
                return Err(LedgerError::AssetConservationViolation);
            }
            if let Some(max) = cdef.max_supply {
                if minted > max {
                    proof {
                        assert(spec_apply_transaction(
                            *engine,
                            u0,
                            a0,
                            tx@,
                            current_height,
                            chain_id,
                        ) == Err::<
                            (Map<UtxoKeyView, TrackedOutputView>, Map<Seq<u8>, AssetDefinition>),
                            LedgerError,
                        >(LedgerError::MaxSupplyExceeded));
                    }
                    return Err(LedgerError::MaxSupplyExceeded);
                }
            }
            if in_totals.get_or_zero(cid) != 0 {
                proof {
                    assert(spec_apply_transaction(*engine, u0, a0, tx@, current_height, chain_id)
                        == Err::<
                        (Map<UtxoKeyView, TrackedOutputView>, Map<Seq<u8>, AssetDefinition>),
                        LedgerError,
                    >(LedgerError::AssetConservationViolation));
                }
                return Err(LedgerError::AssetConservationViolation);
            }
            if !authorized {
                proof {
                    assert(spec_apply_transaction(*engine, u0, a0, tx@, current_height, chain_id)
                        == Err::<
                        (Map<UtxoKeyView, TrackedOutputView>, Map<Seq<u8>, AssetDefinition>),
                        LedgerError,
                    >(LedgerError::MissingIssuerAuthorization));
                }
                return Err(LedgerError::MissingIssuerAuthorization);
            }
        }
        let mut ci: usize = 0;
        while ci < in_totals.len()
            invariant
                0 <= ci <= in_totals.spec_entries().len(),
                forall|j: int|
                    0 <= j < ci ==> spec_in_entry_ok(
                        in_totals.spec_entries(),
                        out_final,
                        exclude_v,
                        j,
                    ),
            decreases in_totals.spec_entries().len() - ci,
        {
            let (id, amt) = in_totals.entry_at(ci);
            let excluded = match &created {
                Some((cid, _, _)) => crate::types::asset_id_eq(&id, cid),
                None => false,
            };
            if !excluded {
                let out_amt = out_totals.get_or_zero(&id);
                if amt != out_amt {
                    proof {
                        in_totals.lemma_entries_dom();
                        assert(in_final.dom().contains(id.0@));
                        assert(in_final[id.0@] == amt);
                        assert(exclude_v != Some(id.0@));
                        assert(!spec_conservation_ok(in_final, out_final, exclude_v));
                        assert(spec_apply_transaction(
                            *engine,
                            u0,
                            a0,
                            tx@,
                            current_height,
                            chain_id,
                        ) == Err::<
                            (Map<UtxoKeyView, TrackedOutputView>, Map<Seq<u8>, AssetDefinition>),
                            LedgerError,
                        >(LedgerError::AssetConservationViolation));
                    }
                    return Err(LedgerError::AssetConservationViolation);
                }
            }
            proof {
                assert(spec_in_entry_ok(in_totals.spec_entries(), out_final, exclude_v, ci as int));
            }
            ci = ci + 1;
        }
        let mut co: usize = 0;
        while co < out_totals.len()
            invariant
                0 <= co <= out_totals.spec_entries().len(),
                forall|j: int|
                    0 <= j < co ==> spec_out_entry_ok(
                        out_totals.spec_entries(),
                        in_final,
                        exclude_v,
                        j,
                    ),
            decreases out_totals.spec_entries().len() - co,
        {
            let (id, amt) = out_totals.entry_at(co);
            let excluded = match &created {
                Some((cid, _, _)) => crate::types::asset_id_eq(&id, cid),
                None => false,
            };
            if !excluded {
                let known = in_totals.contains(&id);
                if !known && amt > 0 {
                    proof {
                        out_totals.lemma_entries_dom();
                        assert(out_final.dom().contains(id.0@));
                        assert(out_final[id.0@] == amt);
                        assert(!spec_conservation_ok(in_final, out_final, exclude_v));
                        assert(spec_apply_transaction(
                            *engine,
                            u0,
                            a0,
                            tx@,
                            current_height,
                            chain_id,
                        ) == Err::<
                            (Map<UtxoKeyView, TrackedOutputView>, Map<Seq<u8>, AssetDefinition>),
                            LedgerError,
                        >(LedgerError::AssetConservationViolation));
                    }
                    return Err(LedgerError::AssetConservationViolation);
                }
            }
            proof {
                assert(spec_out_entry_ok(
                    out_totals.spec_entries(),
                    in_final,
                    exclude_v,
                    co as int,
                ));
            }
            co = co + 1;
        }
        proof {
            in_totals.lemma_entries_dom();
            out_totals.lemma_entries_dom();
            assert forall|id: Seq<u8>|
                #[trigger] in_final.dom().contains(id) && exclude_v != Some(id) implies in_final[id]
                == (if out_final.dom().contains(id) {
                out_final[id]
            } else {
                0u128
            }) by {
                let j = choose|j: int|
                    0 <= j < in_totals.spec_entries().len() && in_totals.spec_entries()[j].0 == id;
                assert(spec_in_entry_ok(in_totals.spec_entries(), out_final, exclude_v, j));
            }
            assert forall|id: Seq<u8>|
                #[trigger] out_final.dom().contains(id) && exclude_v != Some(id)
                    && !in_final.dom().contains(id) implies out_final[id] == 0u128 by {
                let j = choose|j: int|
                    0 <= j < out_totals.spec_entries().len() && out_totals.spec_entries()[j].0
                        == id;
                assert(spec_out_entry_ok(out_totals.spec_entries(), in_final, exclude_v, j));
            }
            assert(spec_conservation_ok(in_final, out_final, exclude_v));
        }
        let tx_id_arr = tx.tx_id();
        let mut ri: usize = 0;
        while ri < spent.len()
            invariant
                0 <= ri <= spent@.len(),
                self.utxos.wf(),
                self.assets == old(self).assets,
                self.utxos@ == u0.remove_keys(spec_seen_keys(tx@.core.inputs, ri as int)),
            decreases spent@.len() - ri,
        {
            let ghost mcur = self.utxos@;
            self.utxos.remove(&spent[ri]);
            proof {
                assert(u0.remove_keys(spec_seen_keys(tx@.core.inputs, ri + 1)) =~= mcur.remove(
                    spent@[ri as int]@,
                ));
            }
            ri = ri + 1;
        }
        proof {
            assert(spent@.len() == tx@.core.inputs.len());
            assert(self.utxos@ == u0.remove_keys(
                spec_seen_keys(tx@.core.inputs, tx@.core.inputs.len() as int),
            ));
        }
        let ghost m0 = self.utxos@;
        let mut ii: usize = 0;
        while ii < tx.core.outputs.len()
            invariant
                0 <= ii <= tx.core.outputs@.len(),
                self.utxos.wf(),
                self.assets == old(self).assets,
                spec_insert_outputs(m0, spec_tx_id(tx@.core), tx@.core.outputs, current_height, 0)
                    == spec_insert_outputs(
                    self.utxos@,
                    spec_tx_id(tx@.core),
                    tx@.core.outputs,
                    current_height,
                    ii as int,
                ),
            decreases tx.core.outputs@.len() - ii,
        {
            let ghost mcur = self.utxos@;
            let o = crate::types::copy_output(&tx.core.outputs[ii]);
            let new_key = UtxoKey { tx_id: tx_id_arr, index: ii as u32 };
            self.utxos.insert(
                new_key,
                TrackedOutput { output: o, created_height: current_height },
            );
            proof {
                assert(new_key@ =~= UtxoKeyView {
                    tx_id: spec_tx_id(tx@.core),
                    index: ii as u32,
                });
                assert(TrackedOutputView {
                    output: tx@.core.outputs[ii as int],
                    created_height: current_height,
                } =~= TrackedOutputView { output: o@, created_height: current_height });
                assert(spec_insert_outputs(
                    mcur,
                    spec_tx_id(tx@.core),
                    tx@.core.outputs,
                    current_height,
                    ii as int,
                ) == spec_insert_outputs(
                    self.utxos@,
                    spec_tx_id(tx@.core),
                    tx@.core.outputs,
                    current_height,
                    ii + 1,
                ));
            }
            ii = ii + 1;
        }
        if let Some((cid, cdef, _)) = created {
            self.assets.insert(cid, cdef);
        }
        proof {
            assert(spec_apply_transaction(*engine, u0, a0, tx@, current_height, chain_id) == Ok::<
                (Map<UtxoKeyView, TrackedOutputView>, Map<Seq<u8>, AssetDefinition>),
                LedgerError,
            >((self.utxos@, self.assets@)));
        }
        Ok(())
    }
}


/// Canonical encoding of one UTXO entry inside the state-root preimage.
pub open spec fn spec_utxo_entry_enc(e: (UtxoKeyView, TrackedOutputView)) -> Seq<u8> {
    e.0.tx_id + vstd::bytes::spec_u32_to_le_bytes(e.0.index) + crate::codec::spec_encode_output(
        e.1.output,
    ) + vstd::bytes::spec_u64_to_le_bytes(e.1.created_height)
}

/// Canonical encoding of one registry entry inside the state-root preimage.
pub open spec fn spec_asset_entry_enc(e: (Seq<u8>, AssetDefinition)) -> Seq<u8> {
    e.0 + crate::codec::spec_encode_asset_definition(e.1)
}

/// The bytes the state root commits to: the sorted UTXO set, then the
/// sorted asset registry.
pub open spec fn spec_state_preimage(
    us: Seq<(UtxoKeyView, TrackedOutputView)>,
    assets: Seq<(Seq<u8>, AssetDefinition)>,
) -> Seq<u8> {
    crate::codec::concat_bytes(Seq::new(us.len(), |i: int| spec_utxo_entry_enc(us[i])))
        + crate::codec::concat_bytes(Seq::new(assets.len(), |i: int| spec_asset_entry_enc(assets[i])))
}

/// The digest of the whole ledger state.
pub open spec fn spec_state_root(
    us: Seq<(UtxoKeyView, TrackedOutputView)>,
    assets: Seq<(Seq<u8>, AssetDefinition)>,
) -> Seq<u8> {
    spec_content_hash(spec_state_preimage(us, assets))
}

impl LedgerState {
    /// The single digest committing to the whole ledger state: the UTXO set
    /// and the asset registry, in their canonical sorted order. A pure
    /// function of the state; see `lemma_state_root_is_function_of_contents`.
    #[verifier::loop_isolation(false)]
    pub fn state_root(&self) -> (r: Hash256)
        requires
            self.wf(),
        ensures
            r@ == spec_state_root(self.utxos.spec_entries(), self.assets.spec_entries()),
            r@ == spec_root_of_state(self.utxos@, self.assets@),
    {
        proof {
            lemma_root_of_state_agrees(*self);
        }
        let ghost us = self.utxos.spec_entries();
        let ghost asts = self.assets.spec_entries();
        let mut preimage: Vec<u8> = Vec::new();
        let mut i: usize = 0;
        while i < self.utxos.entries.len()
            invariant
                0 <= i <= self.utxos.entries@.len(),
                preimage@ == crate::codec::concat_bytes(
                    Seq::new(i as nat, |k: int| spec_utxo_entry_enc(us[k])),
                ),
            decreases self.utxos.entries@.len() - i,
        {
            let ghost pre = Seq::new(i as nat, |k: int| spec_utxo_entry_enc(us[k]));
            let e = &self.utxos.entries[i];
            crate::codec::encode_hash(&e.key.tx_id, &mut preimage);
            let idx_bytes = vstd::bytes::u32_to_le_bytes(e.key.index);
            crate::codec::push_bytes(&mut preimage, idx_bytes.as_slice());
            crate::codec::encode_output_into(&e.value.output, &mut preimage);
            let h_bytes = vstd::bytes::u64_to_le_bytes(e.value.created_height);
            crate::codec::push_bytes(&mut preimage, h_bytes.as_slice());
            proof {
                assert(Seq::new((i + 1) as nat, |k: int| spec_utxo_entry_enc(us[k])) =~= pre.push(
                    spec_utxo_entry_enc(us[i as int]),
                ));
                crate::codec::lemma_concat_bytes_push(pre, spec_utxo_entry_enc(us[i as int]));
                assert(preimage@ =~= crate::codec::concat_bytes(
                    Seq::new((i + 1) as nat, |k: int| spec_utxo_entry_enc(us[k])),
                ));
            }
            i = i + 1;
        }
        proof {
            assert(Seq::new(self.utxos.entries@.len(), |k: int| spec_utxo_entry_enc(us[k]))
                =~= Seq::new(us.len(), |k: int| spec_utxo_entry_enc(us[k])));
        }
        let ghost mid = preimage@;
        let mut j: usize = 0;
        while j < self.assets.entries.len()
            invariant
                0 <= j <= self.assets.entries@.len(),
                preimage@ == mid + crate::codec::concat_bytes(
                    Seq::new(j as nat, |k: int| spec_asset_entry_enc(asts[k])),
                ),
            decreases self.assets.entries@.len() - j,
        {
            let ghost pre = Seq::new(j as nat, |k: int| spec_asset_entry_enc(asts[k]));
            let e = &self.assets.entries[j];
            crate::codec::encode_hash(&e.id.0, &mut preimage);
            crate::codec::encode_asset_definition_into(&e.definition, &mut preimage);
            proof {
                assert(Seq::new((j + 1) as nat, |k: int| spec_asset_entry_enc(asts[k])) =~= pre.push(
                    spec_asset_entry_enc(asts[j as int]),
                ));
                crate::codec::lemma_concat_bytes_push(pre, spec_asset_entry_enc(asts[j as int]));
                assert(preimage@ =~= mid + crate::codec::concat_bytes(
                    Seq::new((j + 1) as nat, |k: int| spec_asset_entry_enc(asts[k])),
                ));
            }
            j = j + 1;
        }
        proof {
            assert(Seq::new(self.assets.entries@.len(), |k: int| spec_asset_entry_enc(asts[k]))
                =~= Seq::new(asts.len(), |k: int| spec_asset_entry_enc(asts[k])));
            assert(preimage@ =~= spec_state_preimage(us, asts));
        }
        hash_bytes(preimage.as_slice())
    }
}

/// Two sorted, duplicate-free entry sequences denoting the same mapping are
/// identical.
proof fn lemma_sorted_utxo_entries_unique(s1: Seq<UtxoEntry>, s2: Seq<UtxoEntry>)
    requires
        forall|i: int, j: int|
            0 <= i < j < s1.len() ==> key_view_lt(
                #[trigger] s1[i].key@,
                #[trigger] s1[j].key@,
            ),
        forall|i: int, j: int|
            0 <= i < j < s2.len() ==> key_view_lt(
                #[trigger] s2[i].key@,
                #[trigger] s2[j].key@,
            ),
        map_of(s1) == map_of(s2),
    ensures
        s1.len() == s2.len(),
        forall|i: int|
            0 <= i < s1.len() ==> (#[trigger] s1[i].key@) == s2[i].key@ && s1[i].value@
                == s2[i].value@,
    decreases s1.len(),
{
    lemma_map_of_dom(s1);
    lemma_map_of_dom(s2);
    if s1.len() == 0 {
        if s2.len() > 0 {
            assert(map_of(s2).dom().contains(s2[s2.len() - 1].key@));
            assert(false);
        }
    } else if s2.len() == 0 {
        assert(map_of(s1).dom().contains(s1[s1.len() - 1].key@));
        assert(false);
    } else {
        let k1 = s1.last().key@;
        let k2 = s2.last().key@;
        assert(map_of(s2).dom().contains(k1));
        assert(map_of(s1).dom().contains(k2));
        let j2 = choose|j: int| 0 <= j < s2.len() && s2[j].key@ == k1;
        let j1 = choose|j: int| 0 <= j < s1.len() && s1[j].key@ == k2;
        if k1 != k2 {
            // each last key would have to sit strictly before the other's
            // last entry, making each strictly below the other
            assert(j2 < s2.len() - 1);
            assert(key_view_lt(k1, k2));
            assert(j1 < s1.len() - 1);
            assert(key_view_lt(k2, k1));
            lemma_key_view_lt_properties(k1, k2);
            assert(false);
        }
        assert(k1 == k2);
        let d1 = s1.drop_last();
        let d2 = s2.drop_last();
        assert forall|i: int, j: int| 0 <= i < j < d1.len() implies key_view_lt(
            #[trigger] d1[i].key@,
            #[trigger] d1[j].key@,
        ) by {
            assert(d1[i] == s1[i] && d1[j] == s1[j]);
        }
        assert forall|i: int, j: int| 0 <= i < j < d2.len() implies key_view_lt(
            #[trigger] d2[i].key@,
            #[trigger] d2[j].key@,
        ) by {
            assert(d2[i] == s2[i] && d2[j] == s2[j]);
        }
        lemma_map_of_dom(d1);
        lemma_map_of_dom(d2);
        assert forall|i: int| 0 <= i < d1.len() implies (#[trigger] d1[i].key@) != k1 by {
            assert(key_view_lt(s1[i].key@, k1));
            lemma_key_view_lt_properties(s1[i].key@, k1);
        }
        assert forall|i: int| 0 <= i < d2.len() implies (#[trigger] d2[i].key@) != k1 by {
            assert(key_view_lt(s2[i].key@, k1));
            lemma_key_view_lt_properties(s2[i].key@, k1);
        }
        assert(!map_of(d1).dom().contains(k1));
        assert(!map_of(d2).dom().contains(k1));
        assert(map_of(d1) =~= map_of(s1).remove(k1));
        assert(map_of(d2) =~= map_of(s2).remove(k1));
        lemma_sorted_utxo_entries_unique(d1, d2);
        assert(map_of(s1)[k1] == s1.last().value@);
        assert(map_of(s2)[k1] == s2.last().value@);
        assert forall|i: int| 0 <= i < s1.len() implies (#[trigger] s1[i].key@) == s2[i].key@
            && s1[i].value@ == s2[i].value@ by {
            if i < s1.len() - 1 {
                assert(d1[i].key@ == d2[i].key@ && d1[i].value@ == d2[i].value@);
                assert(d1[i] == s1[i] && d2[i] == s2[i]);
            }
        }
    }
}

/// Same, for the asset registry's entries.
proof fn lemma_sorted_asset_entries_unique(s1: Seq<AssetEntry>, s2: Seq<AssetEntry>)
    requires
        forall|i: int, j: int|
            0 <= i < j < s1.len() ==> lex_lt(#[trigger] s1[i].id.0@, #[trigger] s1[j].id.0@),
        forall|i: int, j: int|
            0 <= i < j < s2.len() ==> lex_lt(#[trigger] s2[i].id.0@, #[trigger] s2[j].id.0@),
        asset_map_of(s1) == asset_map_of(s2),
    ensures
        s1.len() == s2.len(),
        forall|i: int|
            0 <= i < s1.len() ==> (#[trigger] s1[i].id.0@) == s2[i].id.0@ && s1[i].definition
                == s2[i].definition,
    decreases s1.len(),
{
    lemma_asset_map_of_dom(s1);
    lemma_asset_map_of_dom(s2);
    if s1.len() == 0 {
        if s2.len() > 0 {
            assert(asset_map_of(s2).dom().contains(s2[s2.len() - 1].id.0@));
            assert(false);
        }
    } else if s2.len() == 0 {
        assert(asset_map_of(s1).dom().contains(s1[s1.len() - 1].id.0@));
        assert(false);
    } else {
        let k1 = s1.last().id.0@;
        let k2 = s2.last().id.0@;
        assert(asset_map_of(s2).dom().contains(k1));
        assert(asset_map_of(s1).dom().contains(k2));
        let j2 = choose|j: int| 0 <= j < s2.len() && s2[j].id.0@ == k1;
        let j1 = choose|j: int| 0 <= j < s1.len() && s1[j].id.0@ == k2;
        if k1 != k2 {
            assert(j2 < s2.len() - 1);
            assert(lex_lt(k1, k2));
            assert(j1 < s1.len() - 1);
            assert(lex_lt(k2, k1));
            crate::hashing::lemma_lex_asym(k1, k2);
            assert(false);
        }
        assert(k1 == k2);
        let d1 = s1.drop_last();
        let d2 = s2.drop_last();
        assert forall|i: int, j: int| 0 <= i < j < d1.len() implies lex_lt(
            #[trigger] d1[i].id.0@,
            #[trigger] d1[j].id.0@,
        ) by {
            assert(d1[i] == s1[i] && d1[j] == s1[j]);
        }
        assert forall|i: int, j: int| 0 <= i < j < d2.len() implies lex_lt(
            #[trigger] d2[i].id.0@,
            #[trigger] d2[j].id.0@,
        ) by {
            assert(d2[i] == s2[i] && d2[j] == s2[j]);
        }
        lemma_asset_map_of_dom(d1);
        lemma_asset_map_of_dom(d2);
        assert forall|i: int| 0 <= i < d1.len() implies (#[trigger] d1[i].id.0@) != k1 by {
            assert(lex_lt(s1[i].id.0@, k1));
            crate::hashing::lemma_lex_irrefl(k1);
            if d1[i].id.0@ == k1 {
                crate::hashing::lemma_lex_irrefl(k1);
                assert(false);
            }
        }
        assert forall|i: int| 0 <= i < d2.len() implies (#[trigger] d2[i].id.0@) != k1 by {
            assert(lex_lt(s2[i].id.0@, k1));
            if d2[i].id.0@ == k1 {
                crate::hashing::lemma_lex_irrefl(k1);
                assert(false);
            }
        }
        assert(!asset_map_of(d1).dom().contains(k1));
        assert(!asset_map_of(d2).dom().contains(k1));
        assert(asset_map_of(d1) =~= asset_map_of(s1).remove(k1));
        assert(asset_map_of(d2) =~= asset_map_of(s2).remove(k1));
        lemma_sorted_asset_entries_unique(d1, d2);
        assert(asset_map_of(s1)[k1] == s1.last().definition);
        assert(asset_map_of(s2)[k1] == s2.last().definition);
        assert forall|i: int| 0 <= i < s1.len() implies (#[trigger] s1[i].id.0@) == s2[i].id.0@
            && s1[i].definition == s2[i].definition by {
            if i < s1.len() - 1 {
                assert(d1[i].id.0@ == d2[i].id.0@ && d1[i].definition == d2[i].definition);
                assert(d1[i] == s1[i] && d2[i] == s2[i]);
            }
        }
    }
}

/// The state root of any well-formed state holding these contents; by
/// `lemma_state_root_is_function_of_contents` every such state agrees, so
/// this is a function of the mappings alone.
pub open spec fn spec_root_of_state(
    u: Map<UtxoKeyView, TrackedOutputView>,
    a: Map<Seq<u8>, AssetDefinition>,
) -> Seq<u8> {
    let l = choose|l: LedgerState| l.wf() && l.utxos@ == u && l.assets@ == a;
    spec_state_root(l.utxos.spec_entries(), l.assets.spec_entries())
}

/// A concrete well-formed state realizes the root of its contents.
pub proof fn lemma_root_of_state_agrees(l: LedgerState)
    requires
        l.wf(),
    ensures
        spec_root_of_state(l.utxos@, l.assets@) == spec_state_root(
            l.utxos.spec_entries(),
            l.assets.spec_entries(),
        ),
{
    assert(l.wf() && l.utxos@ == l.utxos@ && l.assets@ == l.assets@);
    let l2 = choose|l2: LedgerState| l2.wf() && l2.utxos@ == l.utxos@ && l2.assets@ == l.assets@;
    lemma_state_root_is_function_of_contents(l, l2);
}

/// The state root is a pure function of the ledger's contents: two
/// well-formed states holding the same UTXO mapping and the same asset
/// registry — however they were built, in whatever insertion order — have
/// the same state root.
pub proof fn lemma_state_root_is_function_of_contents(l1: LedgerState, l2: LedgerState)
    requires
        l1.wf(),
        l2.wf(),
        l1.utxos@ == l2.utxos@,
        l1.assets@ == l2.assets@,
    ensures
        spec_state_root(l1.utxos.spec_entries(), l1.assets.spec_entries()) == spec_state_root(
            l2.utxos.spec_entries(),
            l2.assets.spec_entries(),
        ),
{
    lemma_sorted_utxo_entries_unique(l1.utxos.entries@, l2.utxos.entries@);
    lemma_sorted_asset_entries_unique(l1.assets.entries@, l2.assets.entries@);
    assert(l1.utxos.spec_entries() =~= l2.utxos.spec_entries());
    assert(l1.assets.spec_entries() =~= l2.assets.spec_entries());
}


/// Entry sequences equal in key and value views denote the same mapping.
proof fn lemma_map_of_congruent(s1: Seq<UtxoEntry>, s2: Seq<UtxoEntry>)
    requires
        s1.len() == s2.len(),
        forall|i: int|
            0 <= i < s1.len() ==> (#[trigger] s1[i].key@) == s2[i].key@ && s1[i].value@
                == s2[i].value@,
    ensures
        map_of(s1) == map_of(s2),
    decreases s1.len(),
{
    if s1.len() > 0 {
        assert forall|i: int| 0 <= i < s1.drop_last().len() implies (
        #[trigger] s1.drop_last()[i].key@) == s2.drop_last()[i].key@ && s1.drop_last()[i].value@
            == s2.drop_last()[i].value@ by {
            assert(s1.drop_last()[i] == s1[i] && s2.drop_last()[i] == s2[i]);
        }
        lemma_map_of_congruent(s1.drop_last(), s2.drop_last());
        assert(map_of(s1) =~= map_of(s2));
    } else {
        assert(map_of(s1) =~= map_of(s2));
    }
}

impl LedgerState {
    /// A deep copy of the ledger state, denoting the same mappings.
    pub fn clone_state(&self) -> (r: LedgerState)
        requires
            self.wf(),
        ensures
            r.wf(),
            r.utxos@ == self.utxos@,
            r.assets@ == self.assets@,
    {
        let mut uentries: Vec<UtxoEntry> = Vec::new();
        let mut i: usize = 0;
        while i < self.utxos.entries.len()
            invariant
                0 <= i <= self.utxos.entries@.len(),
                uentries@.len() == i,
                forall|j: int|
                    0 <= j < i ==> (#[trigger] uentries@[j]).key@ == self.utxos.entries@[j].key@
                        && uentries@[j].value@ == self.utxos.entries@[j].value@,
            decreases self.utxos.entries@.len() - i,
        {
            let e = &self.utxos.entries[i];
            let copied = UtxoEntry {
                key: e.key,
                value: TrackedOutput {
                    output: crate::types::copy_output(&e.value.output),
                    created_height: e.value.created_height,
                },
            };
            proof {
                assert(copied.key@ =~= self.utxos.entries@[i as int].key@);
                assert(copied.value@ =~= self.utxos.entries@[i as int].value@);
            }
            uentries.push(copied);
            i = i + 1;
        }
        let mut aentries: Vec<AssetEntry> = Vec::new();
        let mut j: usize = 0;
        while j < self.assets.entries.len()
            invariant
                0 <= j <= self.assets.entries@.len(),
                aentries@ == self.assets.entries@.take(j as int),
            decreases self.assets.entries@.len() - j,
        {
            let e = &self.assets.entries[j];
            aentries.push(AssetEntry { id: e.id, definition: e.definition });
            proof {
                assert(self.assets.entries@[j as int] == (AssetEntry {
                    id: self.assets.entries@[j as int].id,
                    definition: self.assets.entries@[j as int].definition,
                }));
                assert(self.assets.entries@.take(j + 1) =~= self.assets.entries@.take(
                    j as int,
                ).push(self.assets.entries@[j as int]));
            }
            j = j + 1;
        }
        proof {
            assert(aentries@ =~= self.assets.entries@);
        }
        let r = LedgerState {
            utxos: UtxoMap { entries: uentries },
            assets: AssetRegistry { entries: aentries },
        };
        proof {
            assert forall|a: int, b: int| 0 <= a < b < r.utxos.entries@.len() implies key_view_lt(
                #[trigger] r.utxos.entries@[a].key@,
                #[trigger] r.utxos.entries@[b].key@,
            ) by {
                assert(key_view_lt(self.utxos.entries@[a].key@, self.utxos.entries@[b].key@));
            }
            assert forall|a: int|
                0 <= a < r.utxos.entries@.len() implies crate::codec::output_encodable(
                (#[trigger] r.utxos.entries@[a]).value@.output,
            ) by {
                assert(crate::codec::output_encodable(self.utxos.entries@[a].value@.output));
            }
            lemma_map_of_congruent(r.utxos.entries@, self.utxos.entries@);
        }
        r
    }
}

/// The chain's bookkeeping around the ledger: height, tip hash, state root,
/// last applied timestamp, and the chain id used for replay protection.
pub struct ChainState {
    pub ledger: LedgerState,
    pub height: u64,
    pub tip_hash: Hash256,
    pub state_root: Hash256,
    pub last_timestamp: u64,
    pub chain_id: u32,
}

impl ChainState {
    pub open spec fn wf(self) -> bool {
        self.ledger.wf()
    }
}

impl Default for ChainState {
    fn default() -> (r: Self)
        ensures
            r.wf(),
            r.ledger.utxos@ == Map::<UtxoKeyView, TrackedOutputView>::empty(),
            r.ledger.assets@ == Map::<Seq<u8>, AssetDefinition>::empty(),
            r.height == 0u64,
            r.tip_hash@ == Seq::new(32, |i: int| 0u8),
            r.state_root@ == Seq::new(32, |i: int| 0u8),
            r.last_timestamp == 0u64,
            r.chain_id == 0u32,
    {
        let r = ChainState {
            ledger: LedgerState::default(),
            height: 0,
            tip_hash: [0u8; 32],
            state_root: [0u8; 32],
            last_timestamp: 0,
            chain_id: 0,
        };
        proof {
            assert(r.tip_hash@ =~= Seq::new(32, |i: int| 0u8));
        }
        r
    }
}

/// Applying a block body: the transactions in order against the ledger, all
/// or nothing.
pub open spec fn spec_apply_txs<E: ScriptEngine>(
    engine: E,
    utxos: Map<UtxoKeyView, TrackedOutputView>,
    assets: Map<Seq<u8>, AssetDefinition>,
    txs: Seq<TransactionView>,
    height: u64,
    chain_id: u32,
    i: int,
) -> Result<(Map<UtxoKeyView, TrackedOutputView>, Map<Seq<u8>, AssetDefinition>), LedgerError>
    decreases txs.len() - i,
{
    if i < 0 || i >= txs.len() {
        Ok((utxos, assets))
    } else {
        match spec_apply_transaction(engine, utxos, assets, txs[i], height, chain_id) {
            Err(e) => Err(e),
            Ok((u2, a2)) => spec_apply_txs(engine, u2, a2, txs, height, chain_id, i + 1),
        }
    }
}

impl ChainState {
    /// Applies a whole block: every transaction in list order against the
    /// ledger, transactionally — a failing transaction discards all
    /// mutation — and, on success, recomputes height, tip hash, state root
    /// and timestamp.
    #[verifier::loop_isolation(false)]
    pub fn apply_block<E: ScriptEngine>(&mut self, block: &Block, engine: &E) -> (r: Result<
        (),
        LedgerError,
    >)
        requires
            old(self).wf(),
            forall|i: int|
                0 <= i < block.transactions@.len() ==> crate::codec::tx_core_encodable(
                    (#[trigger] block.transactions@[i])@.core,
                ),
        ensures
            final(self).wf(),
            ({
                let txs = Seq::new(
                    block.transactions@.len(),
                    |i: int| block.transactions@[i]@,
                );
                match spec_apply_txs(
                    *engine,
                    old(self).ledger.utxos@,
                    old(self).ledger.assets@,
                    txs,
                    block.header.height,
                    old(self).chain_id,
                    0,
                ) {
                    Err(e) => r == Err::<(), LedgerError>(e)
                        && final(self).ledger.utxos@ == old(self).ledger.utxos@
                        && final(self).ledger.assets@ == old(self).ledger.assets@
                        && final(self).height == old(self).height
                        && final(self).tip_hash == old(self).tip_hash
                        && final(self).state_root == old(self).state_root
                        && final(self).last_timestamp == old(self).last_timestamp
                        && final(self).chain_id == old(self).chain_id,
                    Ok((u, a)) => r == Ok::<(), LedgerError>(()) && final(self).ledger.utxos@ == u
                        && final(self).ledger.assets@ == a
                        && final(self).height == block.header.height
                        && final(self).tip_hash@ == spec_content_hash(
                        crate::codec::spec_encode_block_header(block.header),
                    ) && final(self).state_root@ == spec_state_root(
                        final(self).ledger.utxos.spec_entries(),
                        final(self).ledger.assets.spec_entries(),
                    ) && final(self).last_timestamp == block.header.timestamp
                        && final(self).chain_id == old(self).chain_id,
                }
            }),
    {
        let ghost txs = Seq::new(block.transactions@.len(), |i: int| block.transactions@[i]@);
        let ghost u0 = self.ledger.utxos@;
        let ghost a0 = self.ledger.assets@;
        let mut working = self.ledger.clone_state();
        let mut t: usize = 0;
        while t < block.transactions.len()
            invariant
                0 <= t <= block.transactions@.len(),
                working.wf(),
                spec_apply_txs(*engine, u0, a0, txs, block.header.height, self.chain_id, 0)
                    == spec_apply_txs(
                    *engine,
                    working.utxos@,
                    working.assets@,
                    txs,
                    block.header.height,
                    self.chain_id,
                    t as int,
                ),
            decreases block.transactions@.len() - t,
        {
            let ghost wu = working.utxos@;
            let ghost wa = working.assets@;
            match working.apply_transaction(
                &block.transactions[t],
                engine,
                block.header.height,
                self.chain_id,
            ) {
                Ok(_) => {},
                Err(e) => {
                    proof {
                        assert(spec_apply_transaction(
                            *engine,
                            wu,
                            wa,
                            txs[t as int],
                            block.header.height,
                            self.chain_id,
                        ) == Err::<
                            (Map<UtxoKeyView, TrackedOutputView>, Map<Seq<u8>, AssetDefinition>),
                            LedgerError,
                        >(e));
                    }
                    return Err(e);
                },
            }
            t = t + 1;
        }
        proof {
            assert(spec_apply_txs(*engine, u0, a0, txs, block.header.height, self.chain_id, 0)
                == Ok::<
                (Map<UtxoKeyView, TrackedOutputView>, Map<Seq<u8>, AssetDefinition>),
                LedgerError,
            >((working.utxos@, working.assets@)));
        }
        self.ledger = working;
        self.height = block.header.height;
        let serialized = crate::codec::encode_block_header(&block.header);
        self.tip_hash = hash_bytes(serialized.as_slice());
        self.state_root = self.ledger.state_root();
        self.last_timestamp = block.header.timestamp;
        Ok(())
    }
}


/// What inserting the outputs does to the mapping: each output position
/// gains its entry, everything else is untouched.
proof fn lemma_insert_outputs_characterized(
    m: Map<UtxoKeyView, TrackedOutputView>,
    txid: Seq<u8>,
    outputs: Seq<OutputView>,
    height: u64,
    j: int,
)
    requires
        0 <= j <= outputs.len(),
        outputs.len() <= u32::MAX,
    ensures
        forall|k: UtxoKeyView| #[trigger]
            spec_insert_outputs(m, txid, outputs, height, j).dom().contains(k) <==> (
            m.dom().contains(k) || (exists|x: int|
                j <= x < outputs.len() && k == (UtxoKeyView {
                    tx_id: txid,
                    index: #[trigger] (x as u32),
                }))),
        forall|x: int|
            j <= x < outputs.len() ==> spec_insert_outputs(m, txid, outputs, height, j)[
                (UtxoKeyView { tx_id: txid, index: #[trigger] (x as u32) })
            ] == (TrackedOutputView { output: outputs[x], created_height: height }),
        forall|k: UtxoKeyView|
            (forall|x: int|
                j <= x < outputs.len() ==> k != (UtxoKeyView {
                    tx_id: txid,
                    index: #[trigger] (x as u32),
                })) && m.dom().contains(k) ==> spec_insert_outputs(m, txid, outputs, height, j)[k]
                == m[k],
    decreases outputs.len() - j,
{
    if j < outputs.len() {
        let key_j = UtxoKeyView { tx_id: txid, index: j as u32 };
        let m2 = m.insert(key_j, TrackedOutputView { output: outputs[j], created_height: height });
        lemma_insert_outputs_characterized(m2, txid, outputs, height, j + 1);
        assert forall|k: UtxoKeyView|
            (forall|x: int|
                j <= x < outputs.len() ==> k != (UtxoKeyView {
                    tx_id: txid,
                    index: #[trigger] (x as u32),
                })) && m.dom().contains(k) implies spec_insert_outputs(m, txid, outputs, height, j)[
            k
        ] == m[k] by {
            assert(k != (UtxoKeyView { tx_id: txid, index: (j as u32) }));
            assert(m2.dom().contains(k));
            assert(spec_insert_outputs(m2, txid, outputs, height, j + 1)[k] == m2[k]);
            assert(m2[k] == m[k]);
        }
        assert forall|x: int|
            j <= x < outputs.len() implies spec_insert_outputs(m, txid, outputs, height, j)[
            (UtxoKeyView { tx_id: txid, index: #[trigger] (x as u32) })
        ] == (TrackedOutputView { output: outputs[x], created_height: height }) by {
            if x == j {
                // a later insert can only overwrite position j if the keys
                // coincide, which distinct indices below u32::MAX rule out
                assert(forall|y: int|
                    j + 1 <= y < outputs.len() ==> key_j != (UtxoKeyView {
                        tx_id: txid,
                        index: #[trigger] (y as u32),
                    }));
                assert(spec_insert_outputs(m2, txid, outputs, height, j + 1)[key_j] == m2[key_j]);
            }
        }
    }
}

/// After a successful application, every spent input key is gone from the
/// UTXO set — provided the transaction does not reference its own id — and
/// one entry per output has appeared, keyed by the transaction's id and the
/// output position, carrying that output at the current height.
pub proof fn lemma_apply_spends_inputs_and_records_outputs<E: ScriptEngine>(
    engine: E,
    utxos: Map<UtxoKeyView, TrackedOutputView>,
    assets: Map<Seq<u8>, AssetDefinition>,
    tx: TransactionView,
    current_height: u64,
    chain_id: u32,
)
    requires
        spec_apply_transaction(engine, utxos, assets, tx, current_height, chain_id) is Ok,
        tx.core.outputs.len() <= u32::MAX,
        forall|i: int|
            0 <= i < tx.core.inputs.len() ==> (#[trigger] tx.core.inputs[i]).tx_id@ != spec_tx_id(
                tx.core,
            ),
    ensures
        ({
            let u2 = spec_apply_transaction(
                engine,
                utxos,
                assets,
                tx,
                current_height,
                chain_id,
            )->Ok_0.0;
            &&& forall|i: int|
                0 <= i < tx.core.inputs.len() ==> !u2.dom().contains(
                    spec_input_key(#[trigger] tx.core.inputs[i]),
                )
            &&& forall|j: int|
                0 <= j < tx.core.outputs.len() ==> u2.dom().contains(
                    UtxoKeyView { tx_id: spec_tx_id(tx.core), index: #[trigger] (j as u32) },
                ) && u2[UtxoKeyView { tx_id: spec_tx_id(tx.core), index: j as u32 }] == (
                TrackedOutputView { output: tx.core.outputs[j], created_height: current_height })
        }),
{
    let removed = utxos.remove_keys(spec_seen_keys(tx.core.inputs, tx.core.inputs.len() as int));
    let u2 = spec_apply_transaction(engine, utxos, assets, tx, current_height, chain_id)->Ok_0.0;
    assert(u2 == spec_insert_outputs(
        removed,
        spec_tx_id(tx.core),
        tx.core.outputs,
        current_height,
        0,
    ));
    lemma_insert_outputs_characterized(
        removed,
        spec_tx_id(tx.core),
        tx.core.outputs,
        current_height,
        0,
    );
    assert forall|i: int| 0 <= i < tx.core.inputs.len() implies !u2.dom().contains(
        spec_input_key(#[trigger] tx.core.inputs[i]),
    ) by {
        let k = spec_input_key(tx.core.inputs[i]);
        assert(spec_seen_keys(tx.core.inputs, tx.core.inputs.len() as int).contains(k));
        assert(!removed.dom().contains(k));
        assert(forall|x: int|
            0 <= x < tx.core.outputs.len() ==> k != (UtxoKeyView {
                tx_id: spec_tx_id(tx.core),
                index: #[trigger] (x as u32),
            }));
    }
}

/// For every asset other than the one being created, a successful
/// application conserved it exactly: the accumulated input totals equal the
/// accumulated output totals.
pub proof fn lemma_apply_conserves_assets<E: ScriptEngine>(
    engine: E,
    utxos: Map<UtxoKeyView, TrackedOutputView>,
    assets: Map<Seq<u8>, AssetDefinition>,
    tx: TransactionView,
    current_height: u64,
    chain_id: u32,
)
    requires
        spec_apply_transaction(engine, utxos, assets, tx, current_height, chain_id) is Ok,
    ensures
        ({
            let created = spec_created_asset(tx.core.kind, chain_id);
            let exclude: Option<Seq<u8>> = match created {
                Some((idb, _, _)) => Some(idb),
                None => None,
            };
            &&& spec_process_inputs(
                engine,
                utxos,
                tx,
                current_height,
                chain_id,
                created,
                0,
                Set::empty(),
                Map::empty(),
                false,
            ) is Ok
            &&& spec_accumulate_outputs(Map::empty(), tx.core.outputs, 0) is Some
            &&& spec_conservation_ok(
                spec_process_inputs(
                    engine,
                    utxos,
                    tx,
                    current_height,
                    chain_id,
                    created,
                    0,
                    Set::empty(),
                    Map::empty(),
                    false,
                )->Ok_0.0,
                spec_accumulate_outputs(Map::empty(), tx.core.outputs, 0)->Some_0,
                exclude,
            )
        }),
{
}

/// A conservation violation is always reported as such: when every earlier
/// stage passes but the totals do not balance, the application fails with
/// exactly that error.
pub proof fn lemma_conservation_violation_is_reported<E: ScriptEngine>(
    engine: E,
    utxos: Map<UtxoKeyView, TrackedOutputView>,
    assets: Map<Seq<u8>, AssetDefinition>,
    tx: TransactionView,
    current_height: u64,
    chain_id: u32,
)
    requires
        spec_apply_transaction(engine, utxos, assets, tx, current_height, chain_id) is Err,
        ({
            let created = spec_created_asset(tx.core.kind, chain_id);
            let exclude: Option<Seq<u8>> = match created {
                Some((idb, _, _)) => Some(idb),
                None => None,
            };
            spec_process_inputs(
                engine,
                utxos,
                tx,
                current_height,
                chain_id,
                created,
                0,
                Set::empty(),
                Map::empty(),
                false,
            ) is Ok && spec_accumulate_outputs(Map::empty(), tx.core.outputs, 0) is Some
                && spec_apply_transaction(engine, utxos, assets, tx, current_height, chain_id)
                != Err::<
                (Map<UtxoKeyView, TrackedOutputView>, Map<Seq<u8>, AssetDefinition>),
                LedgerError,
            >(LedgerError::AssetAlreadyExists) && spec_apply_transaction(
                engine,
                utxos,
                assets,
                tx,
                current_height,
                chain_id,
            ) != Err::<
                (Map<UtxoKeyView, TrackedOutputView>, Map<Seq<u8>, AssetDefinition>),
                LedgerError,
            >(LedgerError::MaxSupplyExceeded) && spec_apply_transaction(
                engine,
                utxos,
                assets,
                tx,
                current_height,
                chain_id,
            ) != Err::<
                (Map<UtxoKeyView, TrackedOutputView>, Map<Seq<u8>, AssetDefinition>),
                LedgerError,
            >(LedgerError::MissingIssuerAuthorization)
        }),
    ensures
        spec_apply_transaction(engine, utxos, assets, tx, current_height, chain_id) == Err::<
            (Map<UtxoKeyView, TrackedOutputView>, Map<Seq<u8>, AssetDefinition>),
            LedgerError,
        >(LedgerError::AssetConservationViolation),
{
}

/// Applying the same transfer twice in sequence cannot succeed: its inputs
/// were consumed by the first application — provided it has at least one
/// input and does not reference its own id — so the second application
/// fails with `MissingInput`.
pub proof fn lemma_reapply_transfer_fails<E: ScriptEngine>(
    engine: E,
    utxos: Map<UtxoKeyView, TrackedOutputView>,
    assets: Map<Seq<u8>, AssetDefinition>,
    tx: TransactionView,
    current_height: u64,
    chain_id: u32,
    second_height: u64,
)
    requires
        spec_apply_transaction(engine, utxos, assets, tx, current_height, chain_id) is Ok,
        tx.core.kind is Transfer,
        tx.core.inputs.len() > 0,
        tx.core.outputs.len() <= u32::MAX,
        forall|i: int|
            0 <= i < tx.core.inputs.len() ==> (#[trigger] tx.core.inputs[i]).tx_id@ != spec_tx_id(
                tx.core,
            ),
    ensures
        ({
            let (u2, a2) = spec_apply_transaction(
                engine,
                utxos,
                assets,
                tx,
                current_height,
                chain_id,
            )->Ok_0;
            spec_apply_transaction(engine, u2, a2, tx, second_height, chain_id) == Err::<
                (Map<UtxoKeyView, TrackedOutputView>, Map<Seq<u8>, AssetDefinition>),
                LedgerError,
            >(LedgerError::MissingInput)
        }),
{
    let (u2, a2) = spec_apply_transaction(engine, utxos, assets, tx, current_height, chain_id)
        ->Ok_0;
    lemma_apply_spends_inputs_and_records_outputs(
        engine,
        utxos,
        assets,
        tx,
        current_height,
        chain_id,
    );
    assert(!u2.dom().contains(spec_input_key(tx.core.inputs[0])));
    assert(!spec_seen_keys(tx.core.inputs, 0).contains(spec_input_key(tx.core.inputs[0])));
    assert(spec_process_inputs(
        engine,
        u2,
        tx,
        second_height,
        chain_id,
        spec_created_asset(tx.core.kind, chain_id),
        0,
        Set::empty(),
        Map::empty(),
        false,
    ) == Err::<(Map<Seq<u8>, u128>, bool), LedgerError>(LedgerError::MissingInput));
}

} // verus!

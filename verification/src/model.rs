//! Mathematical models of the data that the format carries.
//!
//! Every contract in this crate is stated over these types: a parsed value is
//! modelled by [`ValueView`], a block by [`BlockView`].  The executable types
//! in the crate root map onto them through `View`.

use vstd::prelude::*;

use crate::error::ValueKind;

verus! {

/// Model of a value of the format: the tag tree with mathematical contents.
#[verifier::ext_equal]
pub enum ValueView {
    Text(Seq<char>),
    Int(int),
    Bool(bool),
    List(Seq<ValueView>),
}

impl ValueView {
    /// A scalar is a value the write path supports: text, integer or boolean.
    pub open spec fn is_scalar(self) -> bool {
        match self {
            ValueView::List(_) => false,
            _ => true,
        }
    }

    /// The tag of the value.
    pub open spec fn kind(self) -> ValueKind {
        match self {
            ValueView::Text(_) => ValueKind::Text,
            ValueView::Int(_) => ValueKind::Int,
            ValueView::Bool(_) => ValueKind::Bool,
            ValueView::List(_) => ValueKind::List,
        }
    }
}

/// Model of a block: its name and its fields in construction order.
///
/// The field mapping is modelled as a sequence of key/value pairs whose keys
/// are unique (see [`BlockView::wf`]); construction order is kept so that the
/// demand-driven bridge can hand fields out one by one.
#[verifier::ext_equal]
pub struct BlockView {
    pub name: Seq<char>,
    pub entries: Seq<(Seq<char>, ValueView)>,
}

impl BlockView {
    /// Keys are unique: the well-formedness every constructed block has.
    pub open spec fn wf(self) -> bool {
        forall|i: int, j: int|
            0 <= i < j < self.entries.len() ==> self.entries[i].0 != self.entries[j].0
    }

    /// The index of the entry holding `key`, if any (first occurrence).
    pub open spec fn find_key(self, key: Seq<char>) -> Option<int>
        decreases self.entries.len(),
    {
        if self.entries.len() == 0 {
            None
        } else if self.entries[0].0 == key {
            Some(0)
        } else {
            match (BlockView { name: self.name, entries: self.entries.drop_first() }).find_key(
                key,
            ) {
                Some(i) => Some(i + 1),
                None => None,
            }
        }
    }

    /// The value under `key`, if present.
    pub open spec fn value_of(self, key: Seq<char>) -> Option<ValueView> {
        match self.find_key(key) {
            Some(i) => Some(self.entries[i].1),
            None => None,
        }
    }
}

/// Overwrite-insert: a later field with a duplicate name replaces the earlier
/// one in place; a fresh name is appended.
pub open spec fn insert_entry(
    entries: Seq<(Seq<char>, ValueView)>,
    key: Seq<char>,
    value: ValueView,
) -> Seq<(Seq<char>, ValueView)>
    decreases entries.len(),
{
    if entries.len() == 0 {
        seq![(key, value)]
    } else if entries[0].0 == key {
        seq![(key, value)] + entries.drop_first()
    } else {
        seq![entries[0]] + insert_entry(entries.drop_first(), key, value)
    }
}

/// Where `key` already occurs (first at `idx`), [`insert_entry`] replaces
/// that entry in place.
pub proof fn lemma_insert_entry_update(
    entries: Seq<(Seq<char>, ValueView)>,
    key: Seq<char>,
    value: ValueView,
    idx: int,
)
    requires
        0 <= idx < entries.len(),
        entries[idx].0 == key,
        forall|t: int| 0 <= t < idx ==> entries[t].0 != key,
    ensures
        insert_entry(entries, key, value) == entries.update(idx, (key, value)),
    decreases entries.len(),
{
    if idx == 0 {
        assert(insert_entry(entries, key, value) =~= entries.update(0, (key, value)));
    } else {
        assert(entries.drop_first()[idx - 1].0 == key);
        lemma_insert_entry_update(entries.drop_first(), key, value, idx - 1);
        assert(insert_entry(entries, key, value) =~= entries.update(idx, (key, value)));
    }
}

/// Where `key` does not occur, [`insert_entry`] appends.
pub proof fn lemma_insert_entry_push(
    entries: Seq<(Seq<char>, ValueView)>,
    key: Seq<char>,
    value: ValueView,
)
    requires
        forall|t: int| 0 <= t < entries.len() ==> entries[t].0 != key,
    ensures
        insert_entry(entries, key, value) == entries.push((key, value)),
    decreases entries.len(),
{
    if entries.len() == 0 {
        assert(insert_entry(entries, key, value) =~= entries.push((key, value)));
    } else {
        lemma_insert_entry_push(entries.drop_first(), key, value);
        assert(insert_entry(entries, key, value) =~= entries.push((key, value)));
    }
}

/// [`insert_entry`] keeps keys unique and does not invent keys.
pub proof fn lemma_insert_entry_wf(
    entries: Seq<(Seq<char>, ValueView)>,
    key: Seq<char>,
    value: ValueView,
)
    requires
        forall|i: int, j: int|
            0 <= i < j < entries.len() ==> entries[i].0 != entries[j].0,
    ensures
        ({
            let out = insert_entry(entries, key, value);
            &&& forall|i: int, j: int| 0 <= i < j < out.len() ==> out[i].0 != out[j].0
            &&& forall|i: int|
                0 <= i < out.len() ==> out[i].0 == key || exists|t: int|
                    0 <= t < entries.len() && entries[t].0 == #[trigger] out[i].0
        }),
    decreases entries.len(),
{
    if entries.len() > 0 && entries[0].0 != key {
        lemma_insert_entry_wf(entries.drop_first(), key, value);
        let sub = insert_entry(entries.drop_first(), key, value);
        let out = insert_entry(entries, key, value);
        assert(out == seq![entries[0]] + sub);
        assert forall|i: int, j: int| 0 <= i < j < out.len() implies out[i].0 != out[j].0 by {
            if i == 0 {
                assert(out[j].0 == sub[j - 1].0);
                if out[j].0 == entries[0].0 {
                    assert(exists|t: int|
                        0 <= t < entries.drop_first().len() && entries.drop_first()[t].0
                            == sub[j - 1].0 || sub[j - 1].0 == key);
                }
            } else {
                assert(out[i].0 == sub[i - 1].0 && out[j].0 == sub[j - 1].0);
            }
        }
        assert forall|i: int|
            0 <= i < out.len() implies out[i].0 == key || exists|t: int|
            0 <= t < entries.len() && entries[t].0 == #[trigger] out[i].0 by {
            if i == 0 {
                assert(entries[0].0 == out[0].0);
            } else {
                assert(out[i].0 == sub[i - 1].0);
                if sub[i - 1].0 != key {
                    let t = choose|t: int|
                        0 <= t < entries.drop_first().len() && entries.drop_first()[t].0 == sub[i
                            - 1].0;
                    assert(entries[t + 1].0 == out[i].0);
                }
            }
        }
    }
}

/// Fold [`insert_entry`] over a sequence of raw pairs in order.
pub open spec fn insert_all(
    entries: Seq<(Seq<char>, ValueView)>,
    pairs: Seq<(Seq<char>, ValueView)>,
) -> Seq<(Seq<char>, ValueView)>
    decreases pairs.len(),
{
    if pairs.len() == 0 {
        entries
    } else {
        insert_all(insert_entry(entries, pairs[0].0, pairs[0].1), pairs.drop_first())
    }
}

/// Folding inserts keeps keys unique.
pub proof fn lemma_insert_all_wf(
    entries: Seq<(Seq<char>, ValueView)>,
    pairs: Seq<(Seq<char>, ValueView)>,
)
    requires
        forall|i: int, j: int|
            0 <= i < j < entries.len() ==> entries[i].0 != entries[j].0,
    ensures
        ({
            let out = insert_all(entries, pairs);
            forall|i: int, j: int| 0 <= i < j < out.len() ==> out[i].0 != out[j].0
        }),
    decreases pairs.len(),
{
    if pairs.len() > 0 {
        lemma_insert_entry_wf(entries, pairs[0].0, pairs[0].1);
        lemma_insert_all_wf(insert_entry(entries, pairs[0].0, pairs[0].1), pairs.drop_first());
        assert(insert_all(entries, pairs) == insert_all(
            insert_entry(entries, pairs[0].0, pairs[0].1),
            pairs.drop_first(),
        ));
    }
}

/// When no key occurs twice anywhere, folding inserts is concatenation.
pub proof fn lemma_insert_all_disjoint(
    entries: Seq<(Seq<char>, ValueView)>,
    pairs: Seq<(Seq<char>, ValueView)>,
)
    requires
        ({
            let all = entries + pairs;
            forall|i: int, j: int| 0 <= i < j < all.len() ==> all[i].0 != all[j].0
        }),
    ensures
        insert_all(entries, pairs) == entries + pairs,
    decreases pairs.len(),
{
    let all = entries + pairs;
    if pairs.len() == 0 {
        assert(insert_all(entries, pairs) =~= entries + pairs);
    } else {
        let head = pairs[0];
        assert(head == all[entries.len() as int]);
        assert forall|t: int| 0 <= t < entries.len() implies entries[t].0 != head.0 by {
            assert(all[t] == entries[t]);
        }
        lemma_insert_entry_push(entries, head.0, head.1);
        let entries2 = entries.push(head);
        assert(entries2 + pairs.drop_first() =~= all);
        lemma_insert_all_disjoint(entries2, pairs.drop_first());
        assert(entries2 + pairs.drop_first() =~= entries + pairs);
    }
}

} // verus!

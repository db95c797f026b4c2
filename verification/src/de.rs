//! The deserialization bridge: a demand-driven walk of a parsed block,
//! driven by the target type.
//!
//! The target declares, step by step, what kind of data it expects next.  At
//! the top level it pulls field keys and values from a [`BlockDeserializer`]
//! (pulling a value without a pending key is a `MapProtocol` error); for an
//! individual [`Value`] it declares exactly one primitive expectation
//! through the `expect_*` methods, each of which either yields the datum or
//! fails with a `TypeMismatch` naming both sides.

use vstd::prelude::*;

use crate::error::{DeErrorView, SirtDeserializeError, ValueKind};
use crate::model::{BlockView, ValueView};
use crate::parser::{parse_input, spec_parse_input, str_eq};
use crate::{blocks_view, Block, Value};
use vstd::std_specs::vec::vec_index;

verus! {

broadcast use vstd::std_specs::vec::group_vec_axioms;

impl Value {
    /// The tag of this value.
    pub fn kind(&self) -> (r: ValueKind)
        ensures
            r == self@.kind(),
    {
        match self {
            Value::Text(_) => ValueKind::Text,
            Value::Int(_) => ValueKind::Int,
            Value::Bool(_) => ValueKind::Bool,
            Value::List(_) => ValueKind::List,
        }
    }

    /// The string expectation: yields the text held by a `Text` value, and
    /// fails on every other tag.
    pub fn expect_text(&self) -> (r: Result<String, SirtDeserializeError>)
        ensures
            match self@ {
                ValueView::Text(t) => r matches Ok(s) && s@ == t,
                _ => r matches Err(e) && e@ == (DeErrorView::TypeMismatch {
                    expected: ValueKind::Text,
                    found: self@.kind(),
                }),
            },
    {
        match self {
            Value::Text(s) => Ok(s.clone()),
            _ => Err(
                SirtDeserializeError::TypeMismatch {
                    expected: ValueKind::Text,
                    found: self.kind(),
                },
            ),
        }
    }

    /// The 64-bit integer expectation: yields the number held by an `Int`
    /// value, and fails on every other tag.
    pub fn expect_i64(&self) -> (r: Result<i64, SirtDeserializeError>)
        ensures
            match self@ {
                ValueView::Int(v) => r matches Ok(n) && n as int == v,
                _ => r matches Err(e) && e@ == (DeErrorView::TypeMismatch {
                    expected: ValueKind::Int,
                    found: self@.kind(),
                }),
            },
    {
        match self {
            Value::Int(n) => Ok(*n),
            _ => Err(
                SirtDeserializeError::TypeMismatch {
                    expected: ValueKind::Int,
                    found: self.kind(),
                },
            ),
        }
    }

    /// The boolean expectation: yields the truth value held by a `Bool`
    /// value, and fails on every other tag.
    pub fn expect_bool(&self) -> (r: Result<bool, SirtDeserializeError>)
        ensures
            match self@ {
                ValueView::Bool(b) => r matches Ok(x) && x == b,
                _ => r matches Err(e) && e@ == (DeErrorView::TypeMismatch {
                    expected: ValueKind::Bool,
                    found: self@.kind(),
                }),
            },
    {
        match self {
            Value::Bool(b) => Ok(*b),
            _ => Err(
                SirtDeserializeError::TypeMismatch {
                    expected: ValueKind::Bool,
                    found: self.kind(),
                },
            ),
        }
    }

    /// The sequence expectation: exposes the elements of a `List` value as
    /// a demand-driven sequence, and fails on every other tag.
    pub fn expect_list(&self) -> (r: Result<ListAccess<'_>, SirtDeserializeError>)
        ensures
            match self@ {
                ValueView::List(items) => r matches Ok(a) && a.elems() == items && a.cursor()
                    == 0,
                _ => r matches Err(e) && e@ == (DeErrorView::TypeMismatch {
                    expected: ValueKind::List,
                    found: self@.kind(),
                }),
            },
    {
        match self {
            Value::List(items) => Ok(ListAccess { items, pos: 0 }),
            _ => Err(
                SirtDeserializeError::TypeMismatch {
                    expected: ValueKind::List,
                    found: self.kind(),
                },
            ),
        }
    }
}

/// The demand-driven sequence over a list's elements.
pub struct ListAccess<'a> {
    items: &'a Vec<Value>,
    pos: usize,
}

impl<'a> ListAccess<'a> {
    /// The elements being handed out.
    pub closed spec fn elems(self) -> Seq<ValueView> {
        Value::seq_view(self.items@)
    }

    /// How many elements have been pulled already.
    pub closed spec fn cursor(self) -> int {
        self.pos as int
    }

    /// Pulls the next element, or reports that the list is exhausted.
    pub fn next(&mut self) -> (r: Option<&'a Value>)
        ensures
            final(self).elems() == old(self).elems(),
            old(self).cursor() < old(self).elems().len() ==> (r matches Some(v) && v@ == old(
                self,
            ).elems()[old(self).cursor()] && final(self).cursor() == old(self).cursor() + 1),
            old(self).cursor() >= old(self).elems().len() ==> r is None && final(self).cursor()
                == old(self).cursor(),
    {
        proof {
            Value::lemma_seq_view(self.items@);
        }
        let items = self.items;
        if self.pos < items.len() {
            let v = vec_index(items, self.pos);
            self.pos = self.pos + 1;
            Some(v)
        } else {
            None
        }
    }
}

/// The demand-driven view of one block's fields for a target record.
///
/// The target pulls a key with [`BlockDeserializer::next_key`], then must
/// pull the corresponding value with [`BlockDeserializer::next_value`]
/// before pulling the next key.  Extra fields the target does not ask about
/// are simply never pulled; a missing field is the target's own concern.
pub struct BlockDeserializer<'a> {
    block: &'a Block,
    pos: usize,
    pending: Option<&'a Value>,
}

impl<'a> BlockDeserializer<'a> {
    /// The block being bridged.
    pub closed spec fn src(self) -> BlockView {
        self.block@
    }

    /// The fields being handed out, in construction order.
    pub open spec fn entries(self) -> Seq<(Seq<char>, ValueView)> {
        self.src().entries
    }

    /// How many keys have been pulled already.
    pub closed spec fn cursor(self) -> int {
        self.pos as int
    }

    /// The value matched to the most recently pulled key, not yet pulled
    /// itself.
    pub closed spec fn pending_view(self) -> Option<ValueView> {
        match self.pending {
            Some(v) => Some(v@),
            None => None,
        }
    }

    /// Starts the walk of a block: no key pulled, no value pending.
    pub fn new(block: &'a Block) -> (r: Self)
        ensures
            r.src() == block@,
            r.cursor() == 0,
            r.pending_view() is None,
    {
        BlockDeserializer { block, pos: 0, pending: None }
    }

    /// Pulls the next field's key and stashes its value; yields nothing
    /// once every field has been offered.
    pub fn next_key(&mut self) -> (r: Option<&'a str>)
        ensures
            final(self).src() == old(self).src(),
            old(self).cursor() < old(self).entries().len() ==> (r matches Some(k) && k@ == old(
                self,
            ).entries()[old(self).cursor()].0 && final(self).cursor() == old(self).cursor() + 1
                && final(self).pending_view() == Some(old(self).entries()[old(self).cursor()].1)),
            old(self).cursor() >= old(self).entries().len() ==> r is None && *final(self) == *old(
                self,
            ),
    {
        let fields = self.block.get_fields();
        if self.pos < fields.len() {
            let p = vec_index(fields, self.pos);
            self.pending = Some(&p.1);
            self.pos = self.pos + 1;
            Some(p.0.as_str())
        } else {
            None
        }
    }

    /// Pulls the value matched to the most recently pulled key; pulling
    /// without a pending key is a protocol violation.
    pub fn next_value(&mut self) -> (r: Result<&'a Value, SirtDeserializeError>)
        ensures
            final(self).src() == old(self).src(),
            final(self).cursor() == old(self).cursor(),
            final(self).pending_view() is None,
            match old(self).pending_view() {
                Some(vv) => r matches Ok(v) && v@ == vv,
                None => r matches Err(e) && e@ == DeErrorView::MapProtocol,
            },
    {
        let cur = self.pending;
        self.pending = None;
        match cur {
            Some(v) => Ok(v),
            None => Err(SirtDeserializeError::MapProtocol),
        }
    }
}

/// A record type that can be built from a block through the demand-driven
/// protocol.
///
/// An implementation declares, as the spec function `spec_from`, which
/// record each block denotes (or which error its construction raises), and
/// proves that its `deserialize` walk returns exactly that.
pub trait SirtDeserialize: Sized {
    /// The record this block denotes, or the error its construction
    /// raises.  The default declares nothing; an implementation whose walk
    /// is verified overrides it with its own reading, and `deserialize` is
    /// then held to it.
    open spec fn spec_from(b: BlockView) -> Result<Self, DeErrorView> {
        Err(DeErrorView::Custom(Seq::empty()))
    }

    /// Builds the record by pulling keys and values from `d`.
    fn deserialize(d: BlockDeserializer<'_>) -> (r: Result<Self, SirtDeserializeError>)
        requires
            d.cursor() == 0,
            d.pending_view() is None,
        ensures
            match r {
                Ok(t) => Self::spec_from(d.src()) == Ok::<Self, DeErrorView>(t),
                Err(e) => Self::spec_from(d.src()) matches Err(ev) && ev == e@,
            },
    ;
}

/// Does bridging block `b` give exactly `r`?
pub open spec fn spec_bridged<T: SirtDeserialize>(
    b: BlockView,
    r: Result<T, SirtDeserializeError>,
) -> bool {
    match r {
        Ok(t) => T::spec_from(b) == Ok::<T, DeErrorView>(t),
        Err(e) => T::spec_from(b) matches Err(ev) && ev == e@,
    }
}

/// The message wrapping a parse failure surfaced through the bridge.
pub open spec fn spec_wrap_parse_err(e: crate::error::ParseErrorView) -> DeErrorView {
    DeErrorView::Custom("failed to parse sirt format: "@ + crate::error::spec_parse_error_msg(e))
}

/// The blocks of a document carrying `name`, in document order.
pub open spec fn spec_matching(bs: Seq<BlockView>, name: Seq<char>) -> Seq<BlockView>
    decreases bs.len(),
{
    if bs.len() == 0 {
        Seq::empty()
    } else if bs[0].name == name {
        seq![bs[0]] + spec_matching(bs.drop_first(), name)
    } else {
        spec_matching(bs.drop_first(), name)
    }
}

/// Matching distributes over concatenation.
pub proof fn lemma_matching_concat(a: Seq<BlockView>, b: Seq<BlockView>, name: Seq<char>)
    ensures
        spec_matching(a + b, name) == spec_matching(a, name) + spec_matching(b, name),
    decreases a.len(),
{
    if a.len() == 0 {
        assert(a + b =~= b);
        assert(spec_matching(a, name) + spec_matching(b, name) =~= spec_matching(b, name));
    } else {
        assert((a + b).drop_first() =~= a.drop_first() + b);
        lemma_matching_concat(a.drop_first(), b, name);
        if a[0].name == name {
            assert(seq![a[0]] + (spec_matching(a.drop_first(), name) + spec_matching(b, name))
                =~= (seq![a[0]] + spec_matching(a.drop_first(), name)) + spec_matching(b, name));
        }
    }
}

fn wrap_parse_err(pe: crate::error::ParseError) -> (r: SirtDeserializeError)
    ensures
        r@ == spec_wrap_parse_err(pe@),
{
    let mut msg = String::from_str("failed to parse sirt format: ");
    let tail = pe.message();
    msg.append(tail.as_str());
    SirtDeserializeError::custom(msg)
}

/// Parses `input` and bridges its first block into a `T`.
///
/// Fails with the wrapped parse error when the text is malformed, with a
/// `Custom` error when the document holds no block at all, and otherwise
/// returns exactly what bridging the first block gives.
pub fn from_str<T: SirtDeserialize>(input: &str) -> (r: Result<T, SirtDeserializeError>)
    ensures
        match spec_parse_input(input@) {
            Err(pe) => r matches Err(e) && e@ == spec_wrap_parse_err(pe),
            Ok(bs) => if bs.len() == 0 {
                r matches Err(e) && e@ == DeErrorView::Custom("expected at least one block"@)
            } else {
                spec_bridged(bs[0], r)
            },
        },
{
    match parse_input(input) {
        Err(pe) => Err(wrap_parse_err(pe)),
        Ok(blocks) => {
            if blocks.len() == 0 {
                Err(SirtDeserializeError::custom(String::from_str("expected at least one block")))
            } else {
                let d = BlockDeserializer::new(vec_index(&blocks, 0));
                T::deserialize(d)
            }
        },
    }
}

/// Parses `input` and bridges the first block named `name` into a `T`.
///
/// Fails with the wrapped parse error when the text is malformed, with
/// `NotFound` when no block carries `name`, and otherwise returns exactly
/// what bridging that block gives.  Non-matching blocks play no part in the
/// result, wherever they stand.
pub fn from_str_named<T: SirtDeserialize>(input: &str, name: &str) -> (r: Result<
    T,
    SirtDeserializeError,
>)
    ensures
        match spec_parse_input(input@) {
            Err(pe) => r matches Err(e) && e@ == spec_wrap_parse_err(pe),
            Ok(bs) => {
                let matching = spec_matching(bs, name@);
                if matching.len() == 0 {
                    r matches Err(e) && e@ == DeErrorView::NotFound(name@)
                } else {
                    spec_bridged(matching[0], r)
                }
            },
        },
{
    match parse_input(input) {
        Err(pe) => Err(wrap_parse_err(pe)),
        Ok(blocks) => {
            let ghost bs = blocks_view(blocks@);
            let n = blocks.len();
            let mut ix: usize = 0;
            proof {
                assert(bs.subrange(0, bs.len() as int) =~= bs);
            }
            while ix < n
                invariant
                    n == blocks@.len(),
                    bs == blocks_view(blocks@),
                    spec_parse_input(input@) == Ok::<Seq<BlockView>, crate::error::ParseErrorView>(
                        bs,
                    ),
                    ix <= n,
                    spec_matching(bs, name@) == spec_matching(
                        bs.subrange(ix as int, bs.len() as int),
                        name@,
                    ),
                decreases n - ix,
            {
                let b = vec_index(&blocks, ix);
                let ghost rest = bs.subrange(ix as int, bs.len() as int);
                proof {
                    assert(b@ == bs[ix as int]);
                    assert(rest[0] == bs[ix as int]);
                    assert(rest.drop_first() =~= bs.subrange(ix + 1, bs.len() as int));
                }
                if str_eq(b.get_name(), name) {
                    proof {
                        assert(rest[0].name == name@);
                        assert(spec_matching(rest, name@) == seq![rest[0]] + spec_matching(
                            rest.drop_first(),
                            name@,
                        ));
                        assert(spec_matching(rest, name@)[0] == bs[ix as int]);
                    }
                    let d = BlockDeserializer::new(b);
                    return T::deserialize(d);
                }
                proof {
                    assert(bs[ix as int].name != name@);
                }
                ix = ix + 1;
            }
            proof {
                assert(bs.subrange(n as int, bs.len() as int) =~= Seq::<BlockView>::empty());
                assert(spec_matching(Seq::<BlockView>::empty(), name@) =~= Seq::<
                    BlockView,
                >::empty());
            }
            Err(SirtDeserializeError::NotFound(String::from_str(name)))
        },
    }
}

/// Parses `input` once and bridges every block named `name`, in document
/// order, each independently: one item's failure neither disturbs the
/// items before it nor stops the items after it.
pub fn from_str_named_iter<T: SirtDeserialize>(input: &str, name: &str) -> (r: Result<
    Vec<Result<T, SirtDeserializeError>>,
    SirtDeserializeError,
>)
    ensures
        match spec_parse_input(input@) {
            Err(pe) => r matches Err(e) && e@ == spec_wrap_parse_err(pe),
            Ok(bs) => r matches Ok(items) && {
                let matching = spec_matching(bs, name@);
                &&& items@.len() == matching.len()
                &&& forall|ix: int|
                    0 <= ix < matching.len() ==> spec_bridged(matching[ix], #[trigger] items@[ix])
            },
        },
{
    match parse_input(input) {
        Err(pe) => Err(wrap_parse_err(pe)),
        Ok(blocks) => {
            let ghost bs = blocks_view(blocks@);
            let n = blocks.len();
            let mut out: Vec<Result<T, SirtDeserializeError>> = Vec::new();
            let mut ix: usize = 0;
            while ix < n
                invariant
                    n == blocks@.len(),
                    bs == blocks_view(blocks@),
                    spec_parse_input(input@) == Ok::<Seq<BlockView>, crate::error::ParseErrorView>(
                        bs,
                    ),
                    ix <= n,
                    out@.len() == spec_matching(bs.subrange(0, ix as int), name@).len(),
                    forall|t: int|
                        0 <= t < out@.len() ==> spec_bridged(
                            spec_matching(bs.subrange(0, ix as int), name@)[t],
                            #[trigger] out@[t],
                        ),
                decreases n - ix,
            {
                let ghost prefix = bs.subrange(0, ix as int);
                let b = vec_index(&blocks, ix);
                proof {
                    assert(b@ == bs[ix as int]);
                    assert(bs.subrange(0, ix + 1) =~= prefix + seq![bs[ix as int]]);
                    lemma_matching_concat(prefix, seq![bs[ix as int]], name@);
                    assert(seq![bs[ix as int]].drop_first() =~= Seq::<BlockView>::empty());
                }
                if str_eq(b.get_name(), name) {
                    let d = BlockDeserializer::new(b);
                    let item = T::deserialize(d);
                    out.push(item);
                    proof {
                        assert(bs[ix as int].name == name@);
                        assert(spec_matching(Seq::<BlockView>::empty(), name@) =~= Seq::<
                            BlockView,
                        >::empty());
                        assert(spec_matching(seq![bs[ix as int]], name@) =~= seq![bs[ix as int]]);
                    }
                } else {
                    proof {
                        assert(bs[ix as int].name != name@);
                        assert(spec_matching(Seq::<BlockView>::empty(), name@) =~= Seq::<
                            BlockView,
                        >::empty());
                        assert(spec_matching(seq![bs[ix as int]], name@) =~= Seq::<
                            BlockView,
                        >::empty());
                    }
                }
                ix = ix + 1;
            }
            proof {
                assert(bs.subrange(0, n as int) =~= bs);
            }
            Ok(out)
        },
    }
}

} // verus!

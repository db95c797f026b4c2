//! A small self-describing text format of named blocks with typed fields,
//! together with a verified parser and a demand-driven bridge that maps
//! between the parsed tree and caller-supplied record types.

use vstd::prelude::*;

pub mod de;
pub mod error;
pub mod inspect;
pub mod laws;
pub mod model;
pub mod num;
pub mod parser;
pub mod se;

pub use crate::de::{from_str, from_str_named, from_str_named_iter};
pub use crate::parser::parse_input;
pub use crate::se::{to_pretty_string, to_string};

use crate::model::{
    insert_all, insert_entry, lemma_insert_entry_push, lemma_insert_entry_update, BlockView,
    ValueView,
};
use vstd::std_specs::vec::vec_index;

verus! {

broadcast use vstd::std_specs::vec::group_vec_axioms;

/// A value of the format: text, a 64-bit signed integer, a boolean, or a
/// list of further values (lists may nest and may be heterogeneous).
#[derive(Debug, PartialEq)]
pub enum Value {
    Text(String),
    Int(i64),
    Bool(bool),
    List(Vec<Value>),
}

impl View for Value {
    type V = ValueView;

    open spec fn view(&self) -> ValueView
        decreases self,
    {
        match self {
            Value::Text(s) => ValueView::Text(s@),
            Value::Int(n) => ValueView::Int(*n as int),
            Value::Bool(b) => ValueView::Bool(*b),
            Value::List(items) => {
                proof {
                    assert(decreases_to!(*items => items@));
                }
                ValueView::List(Value::seq_view(items@))
            },
        }
    }
}

impl Value {
    /// The views of a sequence of values, element by element.
    pub open spec fn seq_view(items: Seq<Value>) -> Seq<ValueView>
        decreases items,
    {
        if items.len() == 0 {
            Seq::empty()
        } else {
            proof {
                assert(items.drop_first() == items.subrange(1, items.len() as int));
                assert(decreases_to!(items => items.subrange(1, items.len() as int)));
                assert(decreases_to!(items => items[0]));
            }
            seq![items[0]@] + Value::seq_view(items.drop_first())
        }
    }

    /// `seq_view` maps the view over the sequence element by element.
    pub broadcast proof fn lemma_seq_view(items: Seq<Value>)
        ensures
            (#[trigger] Value::seq_view(items)).len() == items.len(),
            forall|i: int| 0 <= i < items.len() ==> Value::seq_view(items)[i] == items[i]@,
        decreases items.len(),
    {
        if items.len() > 0 {
            assert(Value::seq_view(items) == seq![items[0]@] + Value::seq_view(
                items.drop_first(),
            ));
            Value::lemma_seq_view(items.drop_first());
            assert forall|i: int| 0 <= i < items.len() implies Value::seq_view(items)[i]
                == items[i]@ by {
                if i > 0 {
                    assert(items.drop_first()[i - 1] == items[i]);
                }
            }
        }
    }
}

/// A block: a non-empty identifier naming it, and a mapping from field
/// names to values.  A later field with a duplicate name overwrites an
/// earlier one during construction, so keys are unique.
#[derive(Debug, PartialEq)]
pub struct Block {
    name: String,
    fields: Vec<(String, Value)>,
}

/// The views of a sequence of key/value pairs, pair by pair.
pub open spec fn fields_view(fields: Seq<(String, Value)>) -> Seq<(Seq<char>, ValueView)> {
    Seq::new(fields.len(), |i: int| (fields[i].0@, fields[i].1@))
}

/// The views of a sequence of blocks, block by block.
pub open spec fn blocks_view(blocks: Seq<Block>) -> Seq<BlockView> {
    Seq::new(blocks.len(), |i: int| blocks[i]@)
}

impl View for Block {
    type V = BlockView;

    closed spec fn view(&self) -> BlockView {
        BlockView { name: self.name@, entries: fields_view(self.fields@) }
    }
}

impl Block {
    /// Returns the name of the Block.
    pub fn get_name(&self) -> (r: &str)
        ensures
            r@ == self@.name,
    {
        self.name.as_str()
    }

    /// Returns a reference to the field mapping, as key/value pairs in
    /// construction order.
    pub fn get_fields(&self) -> (r: &Vec<(String, Value)>)
        ensures
            fields_view(r@) == self@.entries,
    {
        &self.fields
    }

    /// Builds a block from a name and key/value pairs; a later pair with a
    /// duplicate key overwrites the earlier one during construction, so the
    /// result's keys are unique.
    pub fn new(name: String, fields: Vec<(String, Value)>) -> (r: Block)
        ensures
            r@ == (BlockView {
                name: name@,
                entries: insert_all(Seq::empty(), fields_view(fields@)),
            }),
            r@.wf(),
    {
        proof {
            crate::model::lemma_insert_all_wf(Seq::empty(), fields_view(fields@));
        }
        let ghost orig = fields_view(fields@);
        let mut raw = fields;
        let mut acc: Vec<(String, Value)> = Vec::new();
        proof {
            assert(fields_view(acc@) =~= Seq::<(Seq<char>, ValueView)>::empty());
        }
        while raw.len() > 0
            invariant
                insert_all(fields_view(acc@), fields_view(raw@)) == insert_all(
                    Seq::empty(),
                    orig,
                ),
            decreases raw@.len(),
        {
            let ghost before = fields_view(raw@);
            let ghost acc_before = fields_view(acc@);
            let pair = raw.remove(0);
            push_field(&mut acc, pair.0, pair.1);
            proof {
                assert(fields_view(raw@) =~= before.drop_first());
            }
        }
        proof {
            assert(fields_view(raw@) =~= Seq::<(Seq<char>, ValueView)>::empty());
        }
        Block { name, fields: acc }
    }
}

/// Inserts `(key, value)` into `fields`: replaces the entry holding `key`
/// in place if one exists, else appends.
fn push_field(fields: &mut Vec<(String, Value)>, key: String, value: Value)
    ensures
        fields_view(final(fields)@) == insert_entry(fields_view(old(fields)@), key@, value@),
{
    let ghost orig = fields_view(old(fields)@);
    let mut idx: usize = 0;
    while idx < fields.len()
        invariant
            orig == fields_view(old(fields)@),
            fields_view(fields@) == orig,
            idx <= orig.len(),
            forall|t: int| 0 <= t < idx ==> orig[t].0 != key@,
        decreases fields@.len() - idx,
    {
        let hit = {
            let p = vec_index(fields, idx);
            p.0 == key
        };
        if hit {
            proof {
                lemma_insert_entry_update(orig, key@, value@, idx as int);
            }
            fields.remove(idx);
            fields.insert(idx, (key, value));
            proof {
                assert(fields_view(fields@) =~= orig.update(idx as int, (key@, value@)));
            }
            return ;
        }
        idx = idx + 1;
    }
    proof {
        lemma_insert_entry_push(orig, key@, value@);
    }
    fields.push((key, value));
    proof {
        assert(fields_view(fields@) =~= orig.push((key@, value@)));
    }
}

} // verus!

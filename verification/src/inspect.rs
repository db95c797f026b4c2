//! Readable reports about parsed blocks: an inferred record declaration
//! and a syntax breakdown, as a front-end would display them.

use vstd::prelude::*;

use crate::model::{BlockView, ValueView};
use crate::num::{append_u64, spec_digits_of};
use crate::parser::range_eq;
use crate::{fields_view, Block, Value};
use vstd::std_specs::vec::vec_index;

verus! {

broadcast use vstd::std_specs::vec::group_vec_axioms;

/// The name of the narrowest Rust type that can hold a value: lists are
/// judged by their first element, and an empty list gives an unknown
/// element type.
pub open spec fn spec_infer_type(v: ValueView) -> Seq<char>
    decreases v,
{
    match v {
        ValueView::Bool(_) => "bool"@,
        ValueView::Int(_) => "i64"@,
        ValueView::Text(_) => "String"@,
        ValueView::List(l) => "Vec<"@ + (if l.len() == 0 {
            "<Unknown>"@
        } else {
            spec_infer_type(l[0])
        }) + ">"@,
    }
}

/// How deep the chain of lists along first elements reaches: zero for a
/// scalar, one more for each list layer.
pub open spec fn spec_list_depth(v: ValueView) -> nat
    decreases v,
{
    match v {
        ValueView::List(l) => 1 + (if l.len() == 0 {
            0nat
        } else {
            spec_list_depth(l[0])
        }),
        _ => 0,
    }
}

/// Does `pat` occur somewhere in `s`?
pub open spec fn spec_contains(s: Seq<char>, pat: Seq<char>) -> bool {
    exists|k: int|
        0 <= k <= s.len() - pat.len() && #[trigger] s.subrange(k, k + pat.len() as int) == pat
}

/// One field's line group in the syntax breakdown.
pub open spec fn spec_explain_field(key: Seq<char>, v: ValueView) -> Seq<char> {
    let inferred = spec_infer_type(v);
    key + " -> "@ + inferred + "\n"@ + "----------\n"@ + "depth: "@ + spec_digits_of(
        1 + spec_list_depth(v) as int,
    ) + "\n"@ + key + " -> identifier\n"@ + inferred + " -> type\n"@ + (if spec_contains(
        inferred,
        "<Unknown>"@,
    ) {
        "note: cannot infer type of list,\nas there are no items inside it"@
    } else {
        Seq::<char>::empty()
    }) + "\n\n\n"@
}

/// The syntax breakdown of every field, in construction order.
pub open spec fn spec_explain_fields(entries: Seq<(Seq<char>, ValueView)>) -> Seq<char>
    decreases entries.len(),
{
    if entries.len() == 0 {
        Seq::empty()
    } else {
        spec_explain_field(entries[0].0, entries[0].1) + spec_explain_fields(entries.drop_first())
    }
}

/// The whole syntax breakdown of a block.
pub open spec fn spec_explain_block(b: BlockView) -> Seq<char> {
    b.name + "\n"@ + Seq::new(b.name.len(), |k: int| '^') + " type: identifier\n\n"@ + "FIELDS:\n"@
        + spec_explain_fields(b.entries)
}

/// One field's line in the inferred record declaration.
pub open spec fn spec_repr_field(key: Seq<char>, v: ValueView) -> Seq<char> {
    "    "@ + key + ": "@ + spec_infer_type(v) + "\n"@
}

/// The inferred record declaration's field lines, in construction order.
pub open spec fn spec_repr_fields(entries: Seq<(Seq<char>, ValueView)>) -> Seq<char>
    decreases entries.len(),
{
    if entries.len() == 0 {
        Seq::empty()
    } else {
        spec_repr_field(entries[0].0, entries[0].1) + spec_repr_fields(entries.drop_first())
    }
}

/// The inferred record declaration for a block.
pub open spec fn spec_repr_block(b: BlockView) -> Seq<char> {
    "#[derive(Debug, Serialize, Deserialize)]\n"@ + "struct "@ + b.name + " {\n"@
        + spec_repr_fields(b.entries) + "}"@
}

/// Explaining distributes over concatenated field lists.
proof fn lemma_explain_fields_concat(a: Seq<(Seq<char>, ValueView)>, b: Seq<(Seq<char>, ValueView)>)
    ensures
        spec_explain_fields(a + b) == spec_explain_fields(a) + spec_explain_fields(b),
    decreases a.len(),
{
    if a.len() == 0 {
        assert(a + b =~= b);
        assert(spec_explain_fields(a) + spec_explain_fields(b) =~= spec_explain_fields(b));
    } else {
        assert((a + b)[0] == a[0]);
        assert((a + b).drop_first() =~= a.drop_first() + b);
        lemma_explain_fields_concat(a.drop_first(), b);
        assert(spec_explain_field(a[0].0, a[0].1) + (spec_explain_fields(a.drop_first())
            + spec_explain_fields(b)) =~= (spec_explain_field(a[0].0, a[0].1)
            + spec_explain_fields(a.drop_first())) + spec_explain_fields(b));
    }
}

/// Declaring distributes over concatenated field lists.
proof fn lemma_repr_fields_concat(a: Seq<(Seq<char>, ValueView)>, b: Seq<(Seq<char>, ValueView)>)
    ensures
        spec_repr_fields(a + b) == spec_repr_fields(a) + spec_repr_fields(b),
    decreases a.len(),
{
    if a.len() == 0 {
        assert(a + b =~= b);
        assert(spec_repr_fields(a) + spec_repr_fields(b) =~= spec_repr_fields(b));
    } else {
        assert((a + b)[0] == a[0]);
        assert((a + b).drop_first() =~= a.drop_first() + b);
        lemma_repr_fields_concat(a.drop_first(), b);
        assert(spec_repr_field(a[0].0, a[0].1) + (spec_repr_fields(a.drop_first())
            + spec_repr_fields(b)) =~= (spec_repr_field(a[0].0, a[0].1) + spec_repr_fields(
            a.drop_first(),
        )) + spec_repr_fields(b));
    }
}

/// Infers the narrowest Rust type that can hold `ty`, as text.
pub fn infer_type_str(ty: &Value) -> (r: String)
    ensures
        r@ == spec_infer_type(ty@),
    decreases ty,
{
    match ty {
        Value::Bool(_) => String::from_str("bool"),
        Value::Int(_) => String::from_str("i64"),
        Value::Text(_) => String::from_str("String"),
        Value::List(l) => {
            let mut out = String::from_str("Vec<");
            if l.len() == 0 {
                out.append("<Unknown>");
                proof {
                    assert(Value::seq_view(l@) =~= Seq::<ValueView>::empty());
                }
            } else {
                proof {
                    assert(decreases_to!(*l => l@));
                    assert(decreases_to!(l@ => l@[0]));
                }
                let first = vec_index(l, 0);
                let inner = infer_type_str(first);
                out.append(inner.as_str());
                proof {
                    Value::lemma_seq_view(l@);
                }
            }
            out.append(">");
            proof {
                assert(out@ =~= spec_infer_type(ty@));
            }
            out
        },
    }
}

/// How many list layers wrap the first-element chain of `value`, counted
/// on top of `num`.
pub fn list_depth(value: Option<&Value>, num: usize) -> (r: usize)
    requires
        num + (match value {
            Some(v) => spec_list_depth(v@),
            None => 0nat,
        }) <= usize::MAX,
    ensures
        r == num + (match value {
            Some(v) => spec_list_depth(v@),
            None => 0nat,
        }),
    decreases (match value {
        Some(v) => spec_list_depth(v@),
        None => 0nat,
    }),
{
    match value {
        Some(v) => match v {
            Value::List(l) => {
                proof {
                    Value::lemma_seq_view(l@);
                }
                if l.len() == 0 {
                    list_depth(None, num + 1)
                } else {
                    let first = vec_index(l, 0);
                    list_depth(Some(first), num + 1)
                }
            },
            _ => num,
        },
        None => num,
    }
}

/// Does `pat` occur somewhere in `s`?
fn str_contains(s: &str, pat: &str) -> (r: bool)
    ensures
        r == spec_contains(s@, pat@),
{
    let n = s.unicode_len();
    let m = pat.unicode_len();
    if m > n {
        return false;
    }
    if m == 0 {
        proof {
            assert(s@.subrange(0, 0 + pat@.len() as int) =~= pat@);
        }
        return true;
    }
    let mut k: usize = 0;
    while k <= n - m
        invariant
            n == s@.len(),
            m == pat@.len(),
            0 < m <= n,
            k <= n - m + 1,
            forall|t: int| 0 <= t < k ==> #[trigger] s@.subrange(t, t + pat@.len() as int) != pat@,
        decreases n - m + 1 - k,
    {
        if range_eq(s, n, k, k + m, pat) {
            return true;
        }
        k = k + 1;
    }
    false
}

/// Renders the record declaration a block's shape suggests.
pub fn repr_block(block: &Block) -> (r: String)
    ensures
        r@ == spec_repr_block(block@),
{
    let mut out = String::from_str("#[derive(Debug, Serialize, Deserialize)]\n");
    out.append("struct ");
    out.append(block.get_name());
    out.append(" {\n");
    let ghost header = out@;
    let fields = block.get_fields();
    let ghost entries = block@.entries;
    let n = fields.len();
    let mut ix: usize = 0;
    proof {
        assert(entries.subrange(0, 0) =~= Seq::<(Seq<char>, ValueView)>::empty());
    }
    while ix < n
        invariant
            n == fields@.len(),
            fields_view(fields@) == entries,
            ix <= n,
            out@ == header + spec_repr_fields(entries.subrange(0, ix as int)),
        decreases n - ix,
    {
        let ghost prefix = entries.subrange(0, ix as int);
        let pair = vec_index(fields, ix);
        out.append("    ");
        out.append(pair.0.as_str());
        out.append(": ");
        let inferred = infer_type_str(&pair.1);
        out.append(inferred.as_str());
        out.append("\n");
        proof {
            assert(entries.subrange(0, ix + 1) =~= prefix + seq![entries[ix as int]]);
            lemma_repr_fields_concat(prefix, seq![entries[ix as int]]);
            assert(seq![entries[ix as int]].drop_first() =~= Seq::<(Seq<char>, ValueView)>::empty());
            assert(spec_repr_fields(Seq::<(Seq<char>, ValueView)>::empty()) == Seq::<char>::empty());
            assert(spec_repr_fields(seq![entries[ix as int]]) =~= spec_repr_field(
                entries[ix as int].0,
                entries[ix as int].1,
            ));
            assert(entries[ix as int].0 == pair.0@ && entries[ix as int].1 == pair.1@);
            assert(out@ =~= header + spec_repr_fields(entries.subrange(0, ix + 1)));
        }
        ix = ix + 1;
    }
    out.append("}");
    proof {
        assert(entries.subrange(0, n as int) =~= entries);
        assert(out@ =~= spec_repr_block(block@));
    }
    out
}

/// Renders the syntax breakdown of a block: its name, then each field with
/// its inferred type and list depth.
#[verifier::rlimit(80)]
pub fn explain_syntax(block: &Block) -> (r: String)
    requires
        forall|t: int|
            0 <= t < block@.entries.len() ==> spec_list_depth(#[trigger] block@.entries[t].1)
                < usize::MAX,
    ensures
        r@ == spec_explain_block(block@),
{
    let name = block.get_name();
    let name_len = name.unicode_len();
    let mut out = String::new();
    out.append(name);
    out.append("\n");
    let mut carets: usize = 0;
    while carets < name_len
        invariant
            carets <= name_len,
            name_len == block@.name.len(),
            out@ == block@.name + "\n"@ + Seq::new(carets as nat, |k: int| '^'),
        decreases name_len - carets,
    {
        out.append("^");
        carets = carets + 1;
        proof {
            reveal_strlit("^");
            assert(out@ =~= block@.name + "\n"@ + Seq::new(carets as nat, |k: int| '^'));
        }
    }
    out.append(" type: identifier\n\n");
    out.append("FIELDS:\n");
    let ghost header = out@;
    let fields = block.get_fields();
    let ghost entries = block@.entries;
    let n = fields.len();
    let mut ix: usize = 0;
    proof {
        assert(entries.subrange(0, 0) =~= Seq::<(Seq<char>, ValueView)>::empty());
    }
    while ix < n
        invariant
            n == fields@.len(),
            fields_view(fields@) == entries,
            forall|t: int|
                0 <= t < entries.len() ==> spec_list_depth(#[trigger] entries[t].1) < usize::MAX,
            ix <= n,
            out@ == header + spec_explain_fields(entries.subrange(0, ix as int)),
        decreases n - ix,
    {
        let ghost prefix = entries.subrange(0, ix as int);
        let pair = vec_index(fields, ix);
        proof {
            assert(entries[ix as int].0 == pair.0@ && entries[ix as int].1 == pair.1@);
        }
        let inferred = infer_type_str(&pair.1);
        out.append(pair.0.as_str());
        out.append(" -> ");
        out.append(inferred.as_str());
        out.append("\n");
        out.append("----------\n");
        out.append("depth: ");
        let depth = list_depth(Some(&pair.1), 1);
        append_u64(&mut out, depth as u64);
        out.append("\n");
        out.append(pair.0.as_str());
        out.append(" -> identifier\n");
        out.append(inferred.as_str());
        out.append(" -> type\n");
        if str_contains(inferred.as_str(), "<Unknown>") {
            out.append("note: cannot infer type of list,\nas there are no items inside it");
        }
        out.append("\n\n\n");
        proof {
            assert(entries.subrange(0, ix + 1) =~= prefix + seq![entries[ix as int]]);
            lemma_explain_fields_concat(prefix, seq![entries[ix as int]]);
            assert(seq![entries[ix as int]].drop_first() =~= Seq::<(Seq<char>, ValueView)>::empty());
            assert(spec_explain_fields(Seq::<(Seq<char>, ValueView)>::empty()) == Seq::<
                char,
            >::empty());
            assert(spec_explain_fields(seq![entries[ix as int]]) =~= spec_explain_field(
                entries[ix as int].0,
                entries[ix as int].1,
            ));
            assert(out@ =~= header + spec_explain_fields(entries.subrange(0, ix + 1)));
        }
        ix = ix + 1;
    }
    proof {
        assert(entries.subrange(0, n as int) =~= entries);
        assert(out@ =~= spec_explain_block(block@));
    }
    out
}

/// A block together with its lazily generated reports.
#[derive(Debug)]
pub struct BlockItem {
    pub block: Block,
    pub description: Option<String>,
    pub syntax: Option<String>,
}

impl BlockItem {
    fn gen_desc(&mut self)
        ensures
            final(self).block@ == old(self).block@,
            final(self).syntax == old(self).syntax,
            final(self).description matches Some(d) && d@ == (match old(self).description {
                Some(prev) => prev@,
                None => "// RUST REPRESENTATION\n\n"@ + spec_repr_block(old(self).block@),
            }),
    {
        if self.description.is_none() {
            let mut text = String::from_str("// RUST REPRESENTATION\n\n");
            let body = repr_block(&self.block);
            text.append(body.as_str());
            self.description = Some(text);
        }
    }

    fn gen_syn(&mut self)
        requires
            forall|t: int|
                0 <= t < old(self).block@.entries.len() ==> spec_list_depth(
                    #[trigger] old(self).block@.entries[t].1,
                ) < usize::MAX,
        ensures
            final(self).block@ == old(self).block@,
            final(self).description == old(self).description,
            final(self).syntax matches Some(d) && d@ == (match old(self).syntax {
                Some(prev) => prev@,
                None => "### SYNTAX BREAKDOWN ###\n\n"@ + spec_explain_block(old(self).block@),
            }),
    {
        if self.syntax.is_none() {
            let mut text = String::from_str("### SYNTAX BREAKDOWN ###\n\n");
            let body = explain_syntax(&self.block);
            text.append(body.as_str());
            self.syntax = Some(text);
        }
    }

    /// The inferred record declaration, generated on first use and cached.
    pub fn item_description(&mut self) -> (r: String)
        ensures
            final(self).block@ == old(self).block@,
            r@ == (match old(self).description {
                Some(prev) => prev@,
                None => "// RUST REPRESENTATION\n\n"@ + spec_repr_block(old(self).block@),
            }),
    {
        self.gen_desc();
        match &self.description {
            Some(d) => d.clone(),
            None => String::new(),
        }
    }

    /// The syntax breakdown, generated on first use and cached.
    pub fn item_syntax(&mut self) -> (r: String)
        requires
            forall|t: int|
                0 <= t < old(self).block@.entries.len() ==> spec_list_depth(
                    #[trigger] old(self).block@.entries[t].1,
                ) < usize::MAX,
        ensures
            final(self).block@ == old(self).block@,
            r@ == (match old(self).syntax {
                Some(prev) => prev@,
                None => "### SYNTAX BREAKDOWN ###\n\n"@ + spec_explain_block(old(self).block@),
            }),
    {
        self.gen_syn();
        match &self.syntax {
            Some(d) => d.clone(),
            None => String::new(),
        }
    }
}

} // verus!

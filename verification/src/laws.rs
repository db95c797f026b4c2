//! Laws of the library, stated and proved once and for all: the boolean
//! synonyms, the order independence of named lookup, the empty-document
//! behaviour, and the round trip from rendering back through parsing.

use vstd::prelude::*;

use crate::de::spec_matching;
use crate::model::{insert_all, lemma_insert_all_disjoint, BlockView, ValueView};
use crate::num::{
    is_digit_char, lemma_digits_of_all_digits, lemma_digits_of_value, spec_digits_of,
    spec_i64_chars, spec_int_literal,
};
use crate::parser::{
    is_ident_char, is_letter_char, is_ws_char, lemma_find_char_exact, lemma_scan_ident_exact,
    lemma_skip_ws_exact, matches_at, spec_bool_spelling, spec_is_ident, spec_parse_blocks,
    spec_parse_block, spec_parse_fields, spec_parse_input, spec_parse_value, spec_skip_ws,
    spec_step, Parsed,
};
use crate::se::{spec_render_block, spec_render_field, spec_render_fields, spec_render_value};

verus! {

/// **Bool synonym equivalence.**  The spellings `true` and `yes` denote the
/// same boolean, as do `false` and `no`: a value parsed from either
/// spelling is indistinguishable downstream.
pub proof fn lemma_bool_synonyms()
    ensures
        spec_bool_spelling("yes"@) == spec_bool_spelling("true"@),
        spec_bool_spelling("no"@) == spec_bool_spelling("false"@),
        spec_bool_spelling("true"@) == Some(true),
        spec_bool_spelling("false"@) == Some(false),
{
    reveal_strlit("true");
    reveal_strlit("yes");
    reveal_strlit("false");
    reveal_strlit("no");
    assert("no"@.len() == 2 && "true"@.len() == 4 && "yes"@.len() == 3 && "false"@.len() == 5);
}

/// A `bool(...)` literal parses by its spelling alone: the accepted
/// spellings give their boolean, every other spelling gives the boolean
/// parse error.
pub proof fn lemma_parse_bool_literal(s: Seq<char>, i: int, sp: Seq<char>)
    requires
        0 <= i,
        i + 6 + sp.len() <= s.len(),
        s.subrange(i, i + 6 + sp.len()) == "bool("@ + sp + ")"@,
        forall|k: int| 0 <= k < sp.len() ==> #[trigger] sp[k] != ')',
    ensures
        spec_parse_value(s, i) == (match spec_bool_spelling(sp) {
            Some(b) => Parsed::<ValueView>::Val(ValueView::Bool(b), i + 6 + sp.len()),
            None => Parsed::<ValueView>::Fail(
                crate::error::ParseErrorView::Other("bool parse error"@),
            ),
        }),
{
    reveal_strlit("text(");
    reveal_strlit("int(");
    reveal_strlit("bool(");
    reveal_strlit(")");
    let g = "bool("@ + sp + ")"@;
    let glen = 6 + sp.len() as int;
    assert forall|k: int| 0 <= k < glen implies s[i + k] == #[trigger] g[k] by {
        assert(s.subrange(i, i + glen)[k] == s[i + k]);
    }
    assert forall|k: int| 0 <= k < 5 implies s[i + k] == #[trigger] "bool("@[k] by {
        assert(g[k] == ("bool("@ + sp)[k] == "bool("@[k]);
    }
    assert(!matches_at(s, i, "text("@)) by {
        if matches_at(s, i, "text("@) {
            assert(s.subrange(i, i + 5)[0] == s[i]);
        }
    }
    assert(!matches_at(s, i, "int("@)) by {
        if matches_at(s, i, "int("@) {
            assert(s.subrange(i, i + 4)[0] == s[i]);
        }
    }
    assert(matches_at(s, i, "bool("@)) by {
        assert(s.subrange(i, i + 5) =~= "bool("@);
    }
    let m = i + 5 + sp.len() as int;
    assert forall|k: int| 0 <= k < sp.len() implies s[i + 5 + k] == #[trigger] sp[k] by {
        assert(g[5 + k] == ("bool("@ + sp)[5 + k] == sp[k]);
    }
    assert(s[i + (5 + sp.len())] == g[5 + sp.len() as int]);
    assert(s[m] == ')');
    assert forall|k: int| i + 5 <= k < m implies #[trigger] s[k] != ')' by {
        assert(s[i + 5 + (k - i - 5)] == sp[k - i - 5]);
    }
    lemma_find_char_exact(s, i + 5, m, ')');
    assert forall|k: int| 0 <= k < sp.len() implies s.subrange(i + 5, m)[k] == #[trigger] sp[k]
        by {
        assert(s.subrange(i + 5, m)[k] == s[i + 5 + k]);
    }
    assert(s.subrange(i + 5, m) =~= sp);
}

/// **Bool synonym equivalence**, at the grammar: two `bool(...)` literals
/// whose spellings denote the same boolean — as `true` and `yes` do, and
/// `false` and `no` — parse to the same value, wherever each stands.
pub proof fn lemma_bool_synonym_parse(
    s1: Seq<char>,
    i1: int,
    sp1: Seq<char>,
    s2: Seq<char>,
    i2: int,
    sp2: Seq<char>,
)
    requires
        spec_bool_spelling(sp1) == spec_bool_spelling(sp2),
        0 <= i1,
        i1 + 6 + sp1.len() <= s1.len(),
        s1.subrange(i1, i1 + 6 + sp1.len()) == "bool("@ + sp1 + ")"@,
        forall|k: int| 0 <= k < sp1.len() ==> #[trigger] sp1[k] != ')',
        0 <= i2,
        i2 + 6 + sp2.len() <= s2.len(),
        s2.subrange(i2, i2 + 6 + sp2.len()) == "bool("@ + sp2 + ")"@,
        forall|k: int| 0 <= k < sp2.len() ==> #[trigger] sp2[k] != ')',
    ensures
        match (spec_parse_value(s1, i1), spec_parse_value(s2, i2)) {
            (Parsed::Val(v1, _), Parsed::Val(v2, _)) => v1 == v2,
            (Parsed::Fail(e1), Parsed::Fail(e2)) => e1 == e2,
            _ => false,
        },
{
    lemma_parse_bool_literal(s1, i1, sp1);
    lemma_parse_bool_literal(s2, i2, sp2);
}

/// **Order independence of named lookup.**  Blocks that do not carry the
/// requested name play no part in what the name selects: prepending any
/// number of them leaves the matching sequence — and so the result of a
/// named lookup — unchanged.
pub proof fn lemma_named_lookup_order_independent(
    prefix: Seq<BlockView>,
    rest: Seq<BlockView>,
    name: Seq<char>,
)
    requires
        forall|i: int| 0 <= i < prefix.len() ==> prefix[i].name != name,
    ensures
        spec_matching(prefix + rest, name) == spec_matching(rest, name),
    decreases prefix.len(),
{
    if prefix.len() == 0 {
        assert(prefix + rest =~= rest);
    } else {
        let all = prefix + rest;
        assert(all[0] == prefix[0]);
        assert(all.drop_first() =~= prefix.drop_first() + rest);
        lemma_named_lookup_order_independent(prefix.drop_first(), rest, name);
    }
}

/// **Empty-document failure.**  The empty text parses to a document with no
/// blocks, so the entry points that need a block fail rather than invent
/// one (see the contract of [`crate::de::from_str`]).
pub proof fn lemma_empty_document()
    ensures
        spec_parse_input(""@) matches Ok(bs) && bs.len() == 0,
{
    reveal_strlit("");
    assert(spec_parse_blocks(""@, 0) == Parsed::<Seq<BlockView>>::Val(Seq::empty(), 0));
}

/// A value the round trip covers: a scalar whose text (if any) holds no
/// quote mark and whose integer (if any) fits 64 signed bits.
pub open spec fn spec_scalar_ok(v: ValueView) -> bool {
    &&& v.is_scalar()
    &&& (v matches ValueView::Text(t) ==> forall|k: int| 0 <= k < t.len() ==> t[k] != '"')
    &&& (v matches ValueView::Int(n) ==> i64::MIN <= n <= i64::MAX)
}

/// Parsing a rendered scalar value out of its surrounding text yields that
/// value and stops right after it.
pub proof fn lemma_parse_value_render(s: Seq<char>, i: int, v: ValueView)
    requires
        spec_scalar_ok(v),
        0 <= i,
        i + spec_render_value(v).len() <= s.len(),
        s.subrange(i, i + spec_render_value(v).len() as int) == spec_render_value(v),
    ensures
        spec_parse_value(s, i) == Parsed::<ValueView>::Val(v, i + spec_render_value(v).len()),
{
    reveal_strlit("text(");
    reveal_strlit("int(");
    reveal_strlit("bool(");
    reveal_strlit("list(");
    reveal_strlit("text(\"");
    reveal_strlit("\")");
    reveal_strlit(")");
    reveal_strlit("bool(true)");
    reveal_strlit("bool(false)");
    reveal_strlit("true");
    reveal_strlit("false");
    reveal_strlit("yes");
    reveal_strlit("no");
    let vlen = spec_render_value(v).len() as int;
    assert forall|k: int| 0 <= k < vlen implies s[i + k] == #[trigger] spec_render_value(v)[k] by {
        assert(s.subrange(i, i + vlen)[k] == s[i + k]);
    }
    match v {
        ValueView::Text(t) => {
            let hd = "text(\""@;
            let tl = "\")"@;
            assert(spec_render_value(v) == hd + t + tl);
            assert(matches_at(s, i, "text("@)) by {
                assert(s.subrange(i, i + 5) =~= "text("@);
            }
            assert forall|k: int| 0 <= k < 6 implies s[i + k] == #[trigger] hd[k] by {
                assert(spec_render_value(v)[k] == (hd + t)[k] == hd[k]);
            }
            assert(hd[5] == '"');
            assert(s[i + 5] == '"');
            let m = i + 6 + t.len() as int;
            assert forall|k: int| 0 <= k < t.len() implies s[i + 6 + k] == #[trigger] t[k] by {
                assert(spec_render_value(v)[6 + k] == (hd + t)[6 + k] == t[k]);
            }
            assert forall|k: int| 0 <= k < 2 implies s[m + k] == #[trigger] tl[k] by {
                assert(spec_render_value(v)[6 + t.len() + k] == tl[k]);
            }
            assert(tl[0] == '"' && tl[1] == ')');
            assert(s[m + 0] == tl[0] && s[m + 1] == tl[1]);
            assert(s[m] == '"');
            assert forall|k: int| i + 6 <= k < m implies #[trigger] s[k] != '"' by {
                assert(s[i + 6 + (k - i - 6)] == t[k - i - 6]);
            }
            lemma_find_char_exact(s, i + 6, m, '"');
            assert(s[m + 1] == ')');
            assert forall|k: int| 0 <= k < t.len() implies s.subrange(i + 6, m)[k] == #[trigger] t[k]
                by {
                assert(s.subrange(i + 6, m)[k] == s[i + 6 + k]);
            }
            assert(s.subrange(i + 6, m) =~= t);
            assert(m + 2 == i + vlen);
        },
        ValueView::Int(n) => {
            let d = spec_i64_chars(n);
            assert(spec_render_value(v) == "int("@ + d + ")"@);
            assert(d.len() > 0) by {
                if n < 0 {
                    lemma_digits_of_all_digits(-n);
                } else {
                    lemma_digits_of_all_digits(n);
                }
            }
            assert(!matches_at(s, i, "text("@)) by {
                if matches_at(s, i, "text("@) {
                    assert(s.subrange(i, i + 5)[0] == s[i]);
                    assert(s[i] == ("int("@ + d + ")"@)[0] == 'i');
                }
            }
            assert(matches_at(s, i, "int("@)) by {
                assert(s.subrange(i, i + 4) =~= "int("@);
            }
            // every rendered digit (and a possible sign) differs from ')'
            assert forall|k: int| 0 <= k < d.len() implies #[trigger] d[k] != ')' && d[k]
                != '-' || (k == 0 && d[k] == '-') by {
                if n < 0 {
                    lemma_digits_of_all_digits(-n);
                    assert(d == seq!['-'] + spec_digits_of(-n));
                    if k > 0 {
                        assert(d[k] == spec_digits_of(-n)[k - 1]);
                        assert(is_digit_char(d[k]));
                    }
                } else {
                    lemma_digits_of_all_digits(n);
                    assert(is_digit_char(d[k]));
                }
            }
            let m = i + 4 + d.len() as int;
            assert forall|k: int| 0 <= k < d.len() implies s[i + 4 + k] == #[trigger] d[k] by {
                assert(spec_render_value(v)[4 + k] == ("int("@ + d)[4 + k] == d[k]);
            }
            assert(spec_render_value(v)[4 + d.len() as int] == ')');
            assert(s[m] == ')');
            assert forall|k: int| i + 4 <= k < m implies #[trigger] s[k] != ')' by {
                assert(s[i + 4 + (k - i - 4)] == d[k - i - 4]);
            }
            lemma_find_char_exact(s, i + 4, m, ')');
            assert forall|k: int| 0 <= k < d.len() implies s.subrange(i + 4, m)[k] == #[trigger] d[k]
                by {
                assert(s.subrange(i + 4, m)[k] == s[i + 4 + k]);
            }
            assert(s.subrange(i + 4, m) =~= d);
            assert(spec_int_literal(d) == Some(n)) by {
                if n < 0 {
                    lemma_digits_of_all_digits(-n);
                    assert(d == seq!['-'] + spec_digits_of(-n));
                    assert(d[0] == '-');
                    assert(d.drop_first() =~= spec_digits_of(-n));
                    lemma_digits_of_value(-n);
                } else {
                    lemma_digits_of_all_digits(n);
                    assert(is_digit_char(d[0]));
                    assert(d[0] != '-');
                    lemma_digits_of_value(n);
                }
            }
            assert(m + 1 == i + vlen);
        },
        ValueView::Bool(b) => {
            let lit = if b {
                "bool(true)"@
            } else {
                "bool(false)"@
            };
            assert(spec_render_value(v) == lit);
            assert(!matches_at(s, i, "text("@)) by {
                if matches_at(s, i, "text("@) {
                    assert(s.subrange(i, i + 5)[0] == s[i]);
                    assert(s[i] == lit[0] == 'b');
                }
            }
            assert(!matches_at(s, i, "int("@)) by {
                if matches_at(s, i, "int("@) {
                    assert(s.subrange(i, i + 4)[0] == s[i]);
                    assert(s[i] == lit[0] == 'b');
                }
            }
            assert(matches_at(s, i, "bool("@)) by {
                assert(s.subrange(i, i + 5) =~= "bool("@);
            }
            let m = i + vlen - 1;
            assert(s[m] == lit[vlen - 1] == ')');
            assert forall|k: int| i + 5 <= k < m implies #[trigger] s[k] != ')' by {
                assert(s[k] == lit[k - i]);
            }
            lemma_find_char_exact(s, i + 5, m, ')');
            assert forall|k: int| 0 <= k < m - i - 5 implies s.subrange(i + 5, m)[k]
                == #[trigger] lit[5 + k] by {
                assert(s.subrange(i + 5, m)[k] == s[i + 5 + k]);
                assert(s[i + (5 + k)] == lit[5 + k]);
            }
            let sub = s.subrange(i + 5, m);
            if b {
                assert(sub.len() == 4);
                assert(sub[0] == s[i + 5] && sub[1] == s[i + 6] && sub[2] == s[i + 7] && sub[3]
                    == s[i + 8]);
                assert(s[i + 5] == lit[5] && s[i + 6] == lit[6] && s[i + 7] == lit[7] && s[i + 8]
                    == lit[8]);
                assert(sub =~= "true"@);
            } else {
                assert(sub.len() == 5);
                assert(sub[0] == s[i + 5] && sub[1] == s[i + 6] && sub[2] == s[i + 7] && sub[3]
                    == s[i + 8] && sub[4] == s[i + 9]);
                assert(s[i + 5] == lit[5] && s[i + 6] == lit[6] && s[i + 7] == lit[7] && s[i + 8]
                    == lit[8] && s[i + 9] == lit[9]);
                assert(sub =~= "false"@);
                assert("false"@.len() == 5 && "true"@.len() == 4 && "yes"@.len() == 3);
            }
        },
        ValueView::List(_) => {},
    }
}

/// Parsing the rendered fields of a record — a run of whitespace, then
/// each field, then the closing brace — yields exactly those fields, in
/// order, in either rendering mode.
#[verifier::rlimit(100)]
pub proof fn lemma_parse_fields_render(
    s: Seq<char>,
    i: int,
    lead: Seq<char>,
    fields: Seq<(Seq<char>, ValueView)>,
    pretty: bool,
)
    requires
        0 <= i,
        lead.len() > 0,
        forall|k: int| 0 <= k < lead.len() ==> is_ws_char(#[trigger] lead[k]),
        i + lead.len() + spec_render_fields(fields, pretty).len() + 1 <= s.len(),
        s.subrange(i, i + lead.len() + spec_render_fields(fields, pretty).len() + 1) == lead
            + spec_render_fields(fields, pretty) + "}"@,
        forall|t: int| 0 <= t < fields.len() ==> spec_is_ident(#[trigger] fields[t].0),
        forall|t: int| 0 <= t < fields.len() ==> spec_scalar_ok(#[trigger] fields[t].1),
    ensures
        spec_parse_fields(s, i) == Parsed::<Seq<(Seq<char>, ValueView)>>::Val(
            fields,
            i + lead.len() + spec_render_fields(fields, pretty).len() + 1,
        ),
    decreases fields.len(),
{
    reveal_strlit(" ");
    reveal_strlit("}");
    reveal_strlit(": ");
    reveal_strlit("\t");
    reveal_strlit("\n");
    reveal_strlit("text(\"");
    reveal_strlit("int(");
    reveal_strlit("bool(true)");
    reveal_strlit("bool(false)");
    let ll = lead.len() as int;
    let rr = spec_render_fields(fields, pretty);
    let rlen = rr.len() as int;
    assert forall|k: int| 0 <= k < ll + rlen + 1 implies s[i + k] == #[trigger] (lead + rr
        + "}"@)[k] by {
        assert(s.subrange(i, i + ll + rlen + 1)[k] == s[i + k]);
    }
    assert forall|k: int| 0 <= k < ll implies s[i + k] == #[trigger] lead[k] by {
        assert((lead + rr + "}"@)[k] == (lead + rr)[k] == lead[k]);
    }
    assert forall|k: int| 0 <= k < rlen implies s[i + ll + k] == #[trigger] rr[k] by {
        assert(s[i + (ll + k)] == (lead + rr + "}"@)[ll + k]);
        assert((lead + rr + "}"@)[ll + k] == (lead + rr)[ll + k] == rr[k]);
    }
    assert(s[i + (ll + rlen)] == (lead + rr + "}"@)[ll + rlen]);
    assert(s[i + ll + rlen] == '}');
    if fields.len() == 0 {
        assert forall|k: int| i <= k < i + ll implies is_ws_char(#[trigger] s[k]) by {
            assert(s[i + (k - i)] == lead[k - i]);
        }
        lemma_skip_ws_exact(s, i, i + ll);
        assert(spec_parse_fields(s, i) == Parsed::<Seq<(Seq<char>, ValueView)>>::Val(
            Seq::empty(),
            i + ll + 1,
        ));
        assert(fields =~= Seq::<(Seq<char>, ValueView)>::empty());
    } else {
        let key = fields[0].0;
        let v0 = fields[0].1;
        let f0 = spec_render_field(key, v0, pretty);
        let vr = spec_render_value(v0);
        let rest = fields.drop_first();
        let rrest = spec_render_fields(rest, pretty);
        assert(rr == f0 + rrest);
        let ind: int = if pretty { 1 } else { 0 };
        let gf1 = (if pretty { "\t"@ } else { Seq::<char>::empty() }) + key;
        let gf2 = gf1 + ": "@;
        let gf3 = gf2 + vr;
        let gf4 = gf3 + (if pretty { "\n"@ } else { Seq::<char>::empty() });
        assert(f0 == gf4 + " "@);
        assert(gf1.len() == ind + key.len());
        assert(f0.len() == ind + key.len() + 2 + vr.len() + (if pretty { 1int } else { 0 }) + 1);
        // characters of the first field, relative to the region
        assert forall|k: int| 0 <= k < f0.len() implies s[i + ll + k] == #[trigger] f0[k] by {
            assert(s[i + ll + k] == rr[k]);
            assert(rr[k] == (f0 + rrest)[k] == f0[k]);
        }
        let a = i + ll + ind;
        assert forall|k: int| 0 <= k < key.len() implies s[a + k] == #[trigger] key[k] by {
            assert(s[i + ll + (ind + k)] == f0[ind + k]);
            assert(f0[ind + k] == gf4[ind + k] == gf3[ind + k] == gf2[ind + k] == gf1[ind + k]);
            assert(gf1[ind + k] == key[k]);
        }
        if pretty {
            assert(s[i + ll + 0] == f0[0]);
            assert(f0[0] == gf4[0] == gf3[0] == gf2[0] == gf1[0] == '\t');
        }
        let kk = a + key.len() as int;
        assert(s[kk + 0] == ':' && s[kk + 1] == ' ') by {
            let p0 = ind + key.len() as int;
            assert(s[i + ll + (p0 + 0)] == f0[p0 + 0]);
            assert(s[i + ll + (p0 + 1)] == f0[p0 + 1]);
            assert(f0[p0 + 0] == gf4[p0 + 0] == gf3[p0 + 0] == gf2[p0 + 0] == ": "@[0]);
            assert(f0[p0 + 1] == gf4[p0 + 1] == gf3[p0 + 1] == gf2[p0 + 1] == ": "@[1]);
        }
        let b0 = kk + 2;
        assert forall|k: int| 0 <= k < vr.len() implies s[b0 + k] == #[trigger] vr[k] by {
            let p0 = ind + key.len() + 2 + k;
            assert(s[i + ll + p0] == f0[p0]);
            assert(f0[p0] == gf4[p0] == gf3[p0] == vr[k]);
        }
        let e0 = b0 + vr.len() as int;
        let tail_ws: Seq<char> = if pretty { seq!['\n', ' '] } else { seq![' '] };
        assert forall|k: int| 0 <= k < tail_ws.len() implies s[e0 + k] == #[trigger] tail_ws[k]
            by {
            let p0 = ind + key.len() + 2 + vr.len() + k;
            assert(s[i + ll + p0] == f0[p0]);
            if pretty {
                if k == 0 {
                    assert(f0[p0] == gf4[p0] == "\n"@[0]);
                } else {
                    assert(f0[p0] == " "@[0]);
                }
            } else {
                assert(f0[p0] == " "@[0]);
            }
        }
        // the walk of spec_parse_fields
        assert(is_letter_char(key[0]) && forall|k: int|
            0 <= k < key.len() ==> is_ident_char(#[trigger] key[k]));
        assert(s[a + 0] == key[0]);
        assert forall|k: int| i <= k < a implies is_ws_char(#[trigger] s[k]) by {
            if k < i + ll {
                assert(s[i + (k - i)] == lead[k - i]);
            }
        }
        lemma_skip_ws_exact(s, i, a);
        assert(spec_skip_ws(s, i) == a);
        assert(s[a] != '}' && is_letter_char(s[a]));
        assert forall|k: int| a <= k < kk implies is_ident_char(#[trigger] s[k]) by {
            assert(s[a + (k - a)] == key[k - a]);
        }
        lemma_scan_ident_exact(s, a, kk);
        assert forall|k: int| 0 <= k < key.len() implies s.subrange(a, kk)[k] == #[trigger] key[k]
            by {
            assert(s.subrange(a, kk)[k] == s[a + k]);
        }
        assert(s.subrange(a, kk) =~= key);
        assert(s[kk] == ':');
        lemma_skip_ws_exact(s, kk, kk);
        // the first character of a rendered scalar is never whitespace
        assert(s[b0 + 0] == vr[0]);
        assert(!is_ws_char(vr[0]) && vr.len() > 0) by {
            match v0 {
                ValueView::Text(_) => {
                    assert(vr[0] == "text(\""@[0]);
                },
                ValueView::Int(n) => {
                    assert(vr[0] == ("int("@ + spec_i64_chars(n))[0] == "int("@[0]);
                },
                ValueView::Bool(_) => {},
                ValueView::List(_) => {},
            }
        }
        lemma_skip_ws_exact(s, kk + 1, b0);
        assert forall|k: int| 0 <= k < vr.len() implies s.subrange(b0, e0)[k] == #[trigger] vr[k]
            by {
            assert(s.subrange(b0, e0)[k] == s[b0 + k]);
        }
        assert(s.subrange(b0, e0) =~= vr);
        lemma_parse_value_render(s, b0, v0);
        assert(spec_step(s, b0, e0) == e0);
        // the rest of the fields, from the first field's terminator
        let tl = tail_ws.len() as int;
        assert(e0 + tl == i + ll + f0.len());
        assert forall|k: int| 0 <= k < tl + rrest.len() + 1 implies s.subrange(
            e0,
            e0 + tl + rrest.len() + 1,
        )[k] == #[trigger] (tail_ws + rrest + "}"@)[k] by {
            assert(s.subrange(e0, e0 + tl + rrest.len() + 1)[k] == s[e0 + k]);
            if k < tl {
                assert(s[e0 + k] == tail_ws[k]);
                assert((tail_ws + rrest + "}"@)[k] == (tail_ws + rrest)[k] == tail_ws[k]);
            } else if k < tl + rrest.len() {
                assert(s[i + ll + (f0.len() + (k - tl))] == rr[f0.len() + (k - tl)]);
                assert(rr[f0.len() + (k - tl)] == rrest[k - tl]);
                assert((tail_ws + rrest + "}"@)[k] == (tail_ws + rrest)[k] == rrest[k - tl]);
            } else {
                assert(e0 + k == i + ll + rlen);
                assert(s[i + ll + rlen] == '}');
            }
        }
        assert(s.subrange(e0, e0 + tl + rrest.len() + 1) =~= tail_ws + rrest + "}"@);
        assert forall|t: int| 0 <= t < rest.len() implies spec_is_ident(#[trigger] rest[t].0)
            && spec_scalar_ok(rest[t].1) by {
            assert(rest[t] == fields[t + 1]);
        }
        lemma_parse_fields_render(s, e0, tail_ws, rest, pretty);
        assert(seq![(key, v0)] + rest =~= fields);
        assert(e0 + tl + rrest.len() + 1 == i + ll + rlen + 1);
    }
}

/// **Round trip.**  Rendering a record — an identifier name and uniquely
/// named fields holding quote-free text, 64-bit integers or booleans — in
/// either mode and parsing the result yields a document with exactly one
/// block: that name over exactly those fields.
#[verifier::rlimit(100)]
pub proof fn lemma_round_trip(name: Seq<char>, fields: Seq<(Seq<char>, ValueView)>, pretty: bool)
    requires
        spec_is_ident(name),
        forall|t: int| 0 <= t < fields.len() ==> spec_is_ident(#[trigger] fields[t].0),
        forall|t: int| 0 <= t < fields.len() ==> spec_scalar_ok(#[trigger] fields[t].1),
        forall|t: int, u: int| 0 <= t < u < fields.len() ==> fields[t].0 != fields[u].0,
    ensures
        spec_parse_input(spec_render_block(name, fields, pretty)) == Ok::<
            Seq<BlockView>,
            crate::error::ParseErrorView,
        >(seq![BlockView { name, entries: fields }]),
{
    reveal_strlit(" { ");
    reveal_strlit(" ");
    reveal_strlit("\n");
    reveal_strlit("}");
    let s = spec_render_block(name, fields, pretty);
    let rr = spec_render_fields(fields, pretty);
    let rlen = rr.len() as int;
    let nl = name.len() as int;
    let p: int = if pretty { 1 } else { 0 };
    let g1 = name + " { "@;
    let g2 = g1 + (if pretty { "\n"@ } else { Seq::<char>::empty() });
    let g3 = g2 + rr;
    let g4 = g3 + "}"@;
    assert(s == g4 + (if pretty { "\n"@ } else { Seq::<char>::empty() }));
    assert(s.len() == nl + 3 + p + rlen + 1 + p);
    assert forall|k: int| 0 <= k < nl implies s[k] == #[trigger] name[k] by {
        assert(s[k] == g4[k] == g3[k] == g2[k] == g1[k] == name[k]);
    }
    assert(s[nl + 0] == ' ' && s[nl + 1] == '{' && s[nl + 2] == ' ') by {
        assert(s[nl + 0] == g4[nl + 0] == g3[nl + 0] == g2[nl + 0] == g1[nl + 0] == " { "@[0]);
        assert(s[nl + 1] == g4[nl + 1] == g3[nl + 1] == g2[nl + 1] == g1[nl + 1] == " { "@[1]);
        assert(s[nl + 2] == g4[nl + 2] == g3[nl + 2] == g2[nl + 2] == g1[nl + 2] == " { "@[2]);
    }
    if pretty {
        assert(s[nl + 3] == g4[nl + 3] == g3[nl + 3] == g2[nl + 3] == "\n"@[0]);
    }
    let lead0: Seq<char> = if pretty { seq![' ', '\n'] } else { seq![' '] };
    let l0 = lead0.len() as int;
    // the name scans as one identifier
    assert(is_letter_char(s[0]));
    lemma_skip_ws_exact(s, 0, 0);
    lemma_scan_ident_exact(s, 0, nl);
    assert forall|k: int| 0 <= k < nl implies s.subrange(0, nl)[k] == #[trigger] name[k] by {
        assert(s.subrange(0, nl)[k] == s[k]);
    }
    assert(s.subrange(0, nl) =~= name);
    lemma_skip_ws_exact(s, nl, nl + 1);
    assert(s[nl + 1] == '{');
    // the fields region
    assert forall|k: int| 0 <= k < rlen implies s[nl + 2 + l0 + k] == #[trigger] rr[k] by {
        assert(s[nl + 2 + l0 + k] == g4[nl + 2 + l0 + k] == g3[nl + 2 + l0 + k]);
        assert(g3[g2.len() + k] == rr[k]);
        assert(g2.len() == nl + 3 + p);
    }
    assert(s[nl + 2 + l0 + rlen] == '}') by {
        assert(s[nl + 2 + l0 + rlen] == g4[g3.len() as int]);
    }
    assert forall|k: int| 0 <= k < l0 + rlen + 1 implies s.subrange(
        nl + 2,
        nl + 2 + l0 + rlen + 1,
    )[k] == #[trigger] (lead0 + rr + "}"@)[k] by {
        assert(s.subrange(nl + 2, nl + 2 + l0 + rlen + 1)[k] == s[nl + 2 + k]);
        if k == 0 {
            assert((lead0 + rr + "}"@)[k] == (lead0 + rr)[k] == lead0[0]);
        } else if k < l0 {
            assert((lead0 + rr + "}"@)[k] == (lead0 + rr)[k] == lead0[k]);
            assert(s[nl + 3] == '\n');
        } else if k < l0 + rlen {
            assert(s[nl + 2 + l0 + (k - l0)] == rr[k - l0]);
            assert((lead0 + rr + "}"@)[k] == (lead0 + rr)[k] == rr[k - l0]);
        } else {
            assert(s[nl + 2 + l0 + rlen] == '}');
        }
    }
    assert(s.subrange(nl + 2, nl + 2 + l0 + rlen + 1) =~= lead0 + rr + "}"@);
    lemma_parse_fields_render(s, nl + 2, lead0, fields, pretty);
    let fend = nl + 2 + l0 + rlen + 1;
    // duplicate-free fields survive the overwrite fold untouched
    assert(Seq::<(Seq<char>, ValueView)>::empty() + fields =~= fields);
    lemma_insert_all_disjoint(Seq::empty(), fields);
    let bb = BlockView { name: s.subrange(0, nl), entries: insert_all(Seq::empty(), fields) };
    assert(bb =~= (BlockView { name, entries: fields }));
    assert(spec_parse_block(s, 0) == Parsed::<BlockView>::Val(
        BlockView { name, entries: fields },
        fend,
    ));
    assert(spec_parse_blocks(s, 0) matches Parsed::Val(bs, j) && bs == seq![
        BlockView { name, entries: fields },
    ]) by {
        assert(spec_step(s, 0, fend) == fend);
        if pretty {
            assert(s[fend] == g4.len() - g4.len() + s[fend]);
            assert(fend + 1 == s.len());
            assert(s[fend + 0] == (g4 + "\n"@)[g4.len() as int] == '\n');
            lemma_skip_ws_exact(s, fend, s.len() as int);
        } else {
            assert(fend == s.len());
            lemma_skip_ws_exact(s, fend, s.len() as int);
        }
        assert(spec_parse_blocks(s, fend) == Parsed::<Seq<BlockView>>::Val(
            Seq::empty(),
            s.len() as int,
        ));
        assert(seq![BlockView { name, entries: fields }] + Seq::<BlockView>::empty() =~= seq![
            BlockView { name, entries: fields },
        ]);
    }
}

} // verus!
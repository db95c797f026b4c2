//! The grammar and its parser.
//!
//! The grammar, bit-exact:
//!
//! ```text
//! input    := block*
//! block    := identifier '{' field* '}'
//! field    := identifier ':' value
//! value    := text | int | bool | list
//! text     := 'text(' '"' <raw-chars-until-next-quote> '"' ')'
//! int      := 'int(' ['-'] digit+ ')'
//! bool     := 'bool(' ('true'|'false'|'yes'|'no') ')'
//! list     := 'list(' (value (',' value)*)? ')'
//! identifier := letter (letter|digit|'_')*
//! ```
//!
//! Whitespace between tokens is insignificant; the literal bodies of
//! `text(...)`, `int(...)` and `bool(...)` are read verbatim.  The reading is
//! defined once, by the `spec_parse_*` functions over character sequences;
//! the executable parser is proved to return exactly what they describe.

use vstd::prelude::*;

use crate::error::{ParseError, ParseErrorView};
use crate::model::{insert_all, BlockView, ValueView};
use crate::num::{is_digit_char, spec_int_literal};
use crate::{Block, Value};

verus! {

broadcast use vstd::std_specs::vec::group_vec_axioms;

/// Insignificant whitespace: space, tab, carriage return, newline.
pub open spec fn is_ws_char(c: char) -> bool {
    c == ' ' || c == '\t' || c == '\n' || c == '\r'
}

/// An ASCII letter, legal at the start of an identifier.
pub open spec fn is_letter_char(c: char) -> bool {
    ('a' <= c && c <= 'z') || ('A' <= c && c <= 'Z')
}

/// A character legal inside an identifier.
pub open spec fn is_ident_char(c: char) -> bool {
    is_letter_char(c) || is_digit_char(c) || c == '_'
}

/// A well-formed identifier: a letter, then letters, digits or underscores.
pub open spec fn spec_is_ident(s: Seq<char>) -> bool {
    s.len() > 0 && is_letter_char(s[0]) && forall|i: int|
        0 <= i < s.len() ==> is_ident_char(#[trigger] s[i])
}

/// The first position at or after `i` holding a non-whitespace character.
pub open spec fn spec_skip_ws(s: Seq<char>, i: int) -> int
    decreases s.len() - i,
{
    if 0 <= i < s.len() && is_ws_char(s[i]) {
        spec_skip_ws(s, i + 1)
    } else {
        i
    }
}

/// The first position at or after `i` holding a non-identifier character.
pub open spec fn spec_scan_ident(s: Seq<char>, i: int) -> int
    decreases s.len() - i,
{
    if 0 <= i < s.len() && is_ident_char(s[i]) {
        spec_scan_ident(s, i + 1)
    } else {
        i
    }
}

/// The first position at or after `i` holding `c`, if any.
pub open spec fn spec_find_char(s: Seq<char>, i: int, c: char) -> Option<int>
    decreases s.len() - i,
{
    if 0 <= i < s.len() {
        if s[i] == c {
            Some(i)
        } else {
            spec_find_char(s, i + 1, c)
        }
    } else {
        None
    }
}

/// Does `pat` occur in `s` starting at position `i`?
pub open spec fn matches_at(s: Seq<char>, i: int, pat: Seq<char>) -> bool {
    0 <= i && i + pat.len() <= s.len() && s.subrange(i, i + pat.len() as int) == pat
}

/// The four accepted spellings of a boolean literal.
pub open spec fn spec_bool_spelling(s: Seq<char>) -> Option<bool> {
    if s == "true"@ || s == "yes"@ {
        Some(true)
    } else if s == "false"@ || s == "no"@ {
        Some(false)
    } else {
        None
    }
}

/// The outcome of reading one construct starting at a position: the parsed
/// thing and the position just past it, or the classified error.
pub enum Parsed<T> {
    Val(T, int),
    Fail(ParseErrorView),
}

/// `spec_skip_ws` stays within `[i, s.len()]` and skips exactly the
/// whitespace run at `i`.
pub proof fn lemma_skip_ws(s: Seq<char>, i: int)
    requires
        0 <= i <= s.len(),
    ensures
        i <= spec_skip_ws(s, i) <= s.len(),
        forall|k: int| i <= k < spec_skip_ws(s, i) ==> is_ws_char(#[trigger] s[k]),
        spec_skip_ws(s, i) < s.len() ==> !is_ws_char(s[spec_skip_ws(s, i)]),
    decreases s.len() - i,
{
    if i < s.len() && is_ws_char(s[i]) {
        lemma_skip_ws(s, i + 1);
    }
}

/// `spec_scan_ident` stays within `[i, s.len()]` and scans exactly the
/// identifier-character run at `i`.
pub proof fn lemma_scan_ident(s: Seq<char>, i: int)
    requires
        0 <= i <= s.len(),
    ensures
        i <= spec_scan_ident(s, i) <= s.len(),
        forall|k: int| i <= k < spec_scan_ident(s, i) ==> is_ident_char(#[trigger] s[k]),
        spec_scan_ident(s, i) < s.len() ==> !is_ident_char(s[spec_scan_ident(s, i)]),
    decreases s.len() - i,
{
    if i < s.len() && is_ident_char(s[i]) {
        lemma_scan_ident(s, i + 1);
    }
}

/// `spec_find_char` finds the first occurrence at or after `i`, or reports
/// that there is none.
pub proof fn lemma_find_char(s: Seq<char>, i: int, c: char)
    requires
        0 <= i <= s.len(),
    ensures
        match spec_find_char(s, i, c) {
            Some(p) => i <= p < s.len() && s[p] == c && forall|k: int|
                i <= k < p ==> s[k] != c,
            None => forall|k: int| i <= k < s.len() ==> s[k] != c,
        },
    decreases s.len() - i,
{
    if i < s.len() && s[i] != c {
        lemma_find_char(s, i + 1, c);
    }
}

/// Skipping whitespace lands exactly on `m` when everything before `m` is
/// whitespace and `m` holds something else (or is the end).
pub proof fn lemma_skip_ws_exact(s: Seq<char>, i: int, m: int)
    requires
        0 <= i <= m <= s.len(),
        forall|k: int| i <= k < m ==> is_ws_char(#[trigger] s[k]),
        m < s.len() ==> !is_ws_char(s[m]),
    ensures
        spec_skip_ws(s, i) == m,
    decreases m - i,
{
    if i < m {
        lemma_skip_ws_exact(s, i + 1, m);
    }
}

/// Scanning an identifier lands exactly on `m` when everything before `m`
/// is an identifier character and `m` holds something else (or is the end).
pub proof fn lemma_scan_ident_exact(s: Seq<char>, i: int, m: int)
    requires
        0 <= i <= m <= s.len(),
        forall|k: int| i <= k < m ==> is_ident_char(#[trigger] s[k]),
        m < s.len() ==> !is_ident_char(s[m]),
    ensures
        spec_scan_ident(s, i) == m,
    decreases m - i,
{
    if i < m {
        lemma_scan_ident_exact(s, i + 1, m);
    }
}

/// Finding a character lands exactly on `m` when it does not occur before
/// `m` and `m` holds it.
pub proof fn lemma_find_char_exact(s: Seq<char>, i: int, m: int, c: char)
    requires
        0 <= i <= m < s.len(),
        forall|k: int| i <= k < m ==> #[trigger] s[k] != c,
        s[m] == c,
    ensures
        spec_find_char(s, i, c) == Some(m),
    decreases m - i,
{
    if i < m {
        lemma_find_char_exact(s, i + 1, m, c);
    }
}

/// The next in-range position after `i`, taking the parser's own claim `j`
/// where it is sound.  Every real continuation satisfies `i < j <= s.len()`
/// (see [`lemma_parse_value_next`]), so this is the identity there.
pub open spec fn spec_step(s: Seq<char>, i: int, j: int) -> int {
    if i < j && j <= s.len() {
        j
    } else if i + 1 <= s.len() {
        i + 1
    } else {
        s.len() as int
    }
}

/// Reads one value at position `i`: one of the four literal forms.
pub open spec fn spec_parse_value(s: Seq<char>, i: int) -> Parsed<ValueView>
    decreases s.len() - i, 0int,
{
    if matches_at(s, i, "text("@) {
        if i + 5 < s.len() && s[i + 5] == '"' {
            match spec_find_char(s, i + 6, '"') {
                Some(q) => if q + 1 < s.len() && s[q + 1] == ')' {
                    Parsed::Val(ValueView::Text(s.subrange(i + 6, q)), q + 2)
                } else {
                    Parsed::Fail(ParseErrorView::Value)
                },
                None => Parsed::Fail(ParseErrorView::Value),
            }
        } else {
            Parsed::Fail(ParseErrorView::Value)
        }
    } else if matches_at(s, i, "int("@) {
        match spec_find_char(s, i + 4, ')') {
            Some(p) => match spec_int_literal(s.subrange(i + 4, p)) {
                Some(v) => Parsed::Val(ValueView::Int(v), p + 1),
                None => Parsed::Fail(ParseErrorView::Other("i64 parse error"@)),
            },
            None => Parsed::Fail(ParseErrorView::Value),
        }
    } else if matches_at(s, i, "bool("@) {
        match spec_find_char(s, i + 5, ')') {
            Some(p) => match spec_bool_spelling(s.subrange(i + 5, p)) {
                Some(b) => Parsed::Val(ValueView::Bool(b), p + 1),
                None => Parsed::Fail(ParseErrorView::Other("bool parse error"@)),
            },
            None => Parsed::Fail(ParseErrorView::Value),
        }
    } else if matches_at(s, i, "list("@) {
        let j = {
            proof {
                reveal_strlit("list(");
                lemma_skip_ws(s, i + 5);
            }
            spec_skip_ws(s, i + 5)
        };
        if j < s.len() && s[j] == ')' {
            Parsed::Val(ValueView::List(Seq::empty()), j + 1)
        } else {
            match spec_parse_elems(s, j) {
                Parsed::Val(items, j2) => Parsed::Val(ValueView::List(items), j2),
                Parsed::Fail(e) => Parsed::Fail(e),
            }
        }
    } else {
        Parsed::Fail(ParseErrorView::Value)
    }
}

/// Reads the non-empty element list of `list(...)`, including the closing
/// parenthesis: `value (',' value)* ')'`.
pub open spec fn spec_parse_elems(s: Seq<char>, i: int) -> Parsed<Seq<ValueView>>
    decreases s.len() - i, 1int,
{
    match spec_parse_value(s, i) {
        Parsed::Val(v, j0) => {
            let j = spec_step(s, i, j0);
            let j1 = {
                proof {
                    if 0 <= j <= s.len() {
                        lemma_skip_ws(s, j);
                    }
                }
                spec_skip_ws(s, j)
            };
            if 0 <= j1 < s.len() && s[j1] == ',' {
                let j2 = {
                    proof {
                        lemma_skip_ws(s, j1 + 1);
                    }
                    spec_skip_ws(s, j1 + 1)
                };
                match spec_parse_elems(s, spec_step(s, j1, j2)) {
                    Parsed::Val(items, j3) => Parsed::Val(seq![v] + items, j3),
                    Parsed::Fail(e) => Parsed::Fail(e),
                }
            } else if 0 <= j1 < s.len() && s[j1] == ')' {
                Parsed::Val(seq![v], j1 + 1)
            } else {
                Parsed::Fail(ParseErrorView::Value)
            }
        },
        Parsed::Fail(e) => Parsed::Fail(e),
    }
}

/// Reads the fields of a block after its opening brace, including the
/// closing brace.  Returns the raw key/value pairs in textual order;
/// duplicates are still present here and resolved by [`insert_all`].
pub open spec fn spec_parse_fields(s: Seq<char>, i: int) -> Parsed<Seq<(Seq<char>, ValueView)>>
    decreases s.len() - i,
{
    let j = {
        proof {
            if 0 <= i <= s.len() {
                lemma_skip_ws(s, i);
            }
        }
        spec_skip_ws(s, i)
    };
    if !(0 <= j < s.len()) {
        Parsed::Fail(ParseErrorView::Input)
    } else if s[j] == '}' {
        Parsed::Val(Seq::empty(), j + 1)
    } else if !is_letter_char(s[j]) {
        Parsed::Fail(ParseErrorView::Field)
    } else {
        let k = {
            proof {
                lemma_scan_ident(s, j);
            }
            spec_scan_ident(s, j)
        };
        let key = s.subrange(j, k);
        let j1 = {
            proof {
                lemma_skip_ws(s, k);
            }
            spec_skip_ws(s, k)
        };
        if !(j1 < s.len() && s[j1] == ':') {
            Parsed::Fail(ParseErrorView::Field)
        } else {
            let j2 = {
                proof {
                    lemma_skip_ws(s, j1 + 1);
                }
                spec_skip_ws(s, j1 + 1)
            };
            match spec_parse_value(s, j2) {
                Parsed::Val(v, j3) => match spec_parse_fields(s, spec_step(s, j2, j3)) {
                    Parsed::Val(fields, j4) => Parsed::Val(seq![(key, v)] + fields, j4),
                    Parsed::Fail(e) => Parsed::Fail(e),
                },
                Parsed::Fail(e) => Parsed::Fail(e),
            }
        }
    }
}

/// Reads one block at position `i` (no leading whitespace).
pub open spec fn spec_parse_block(s: Seq<char>, i: int) -> Parsed<BlockView> {
    if !(0 <= i < s.len() && is_letter_char(s[i])) {
        Parsed::Fail(ParseErrorView::Block)
    } else {
        let k = spec_scan_ident(s, i);
        let name = s.subrange(i, k);
        let j = spec_skip_ws(s, k);
        if !(j < s.len() && s[j] == '{') {
            Parsed::Fail(ParseErrorView::Input)
        } else {
            match spec_parse_fields(s, j + 1) {
                Parsed::Val(pairs, j2) => Parsed::Val(
                    BlockView { name, entries: insert_all(Seq::empty(), pairs) },
                    j2,
                ),
                Parsed::Fail(e) => Parsed::Fail(e),
            }
        }
    }
}

/// Reads blocks until the end of the text.
pub open spec fn spec_parse_blocks(s: Seq<char>, i: int) -> Parsed<Seq<BlockView>>
    decreases s.len() - i,
{
    let j = {
        proof {
            if 0 <= i <= s.len() {
                lemma_skip_ws(s, i);
            }
        }
        spec_skip_ws(s, i)
    };
    if !(0 <= j) {
        Parsed::Fail(ParseErrorView::Input)
    } else if j >= s.len() {
        Parsed::Val(Seq::empty(), j)
    } else {
        match spec_parse_block(s, j) {
            Parsed::Val(b, j2) => {
                proof {
                    if 0 <= j <= s.len() {
                        lemma_parse_block_next(s, j);
                    }
                }
                match spec_parse_blocks(s, spec_step(s, j, j2)) {
                    Parsed::Val(blocks, j3) => Parsed::Val(seq![b] + blocks, j3),
                    Parsed::Fail(e) => Parsed::Fail(e),
                }
            },
            Parsed::Fail(e) => Parsed::Fail(e),
        }
    }
}

/// The reading of a whole document: the blocks in textual order, or the
/// first error.
pub open spec fn spec_parse_input(s: Seq<char>) -> Result<Seq<BlockView>, ParseErrorView> {
    match spec_parse_blocks(s, 0) {
        Parsed::Val(blocks, _) => Ok(blocks),
        Parsed::Fail(e) => Err(e),
    }
}

/// Every block a parse yields is well formed: its name is an identifier
/// and its field keys are unique.
pub open spec fn spec_block_wf(b: BlockView) -> bool {
    spec_is_ident(b.name) && b.wf()
}

/// A successful block parse yields a well-formed block.
pub proof fn lemma_parse_block_wf(s: Seq<char>, i: int)
    requires
        0 <= i <= s.len(),
    ensures
        spec_parse_block(s, i) matches Parsed::Val(b, _) ==> spec_block_wf(b),
{
    if i < s.len() && is_letter_char(s[i]) {
        lemma_scan_ident(s, i);
        let k = spec_scan_ident(s, i);
        assert forall|t: int| 0 <= t < k - i implies is_ident_char(
            #[trigger] s.subrange(i, k)[t],
        ) by {
            assert(s.subrange(i, k)[t] == s[i + t]);
        }
        assert(s.subrange(i, k)[0] == s[i]);
        match spec_parse_block(s, i) {
            Parsed::Val(b, _) => {
                crate::model::lemma_insert_all_wf(
                    Seq::empty(),
                    match spec_parse_fields(s, spec_skip_ws(s, k) + 1) {
                        Parsed::Val(pairs, _) => pairs,
                        Parsed::Fail(_) => Seq::empty(),
                    },
                );
            },
            Parsed::Fail(_) => {},
        }
    }
}

/// Every block of a successful document parse is well formed.
pub proof fn lemma_parse_blocks_wf(s: Seq<char>, i: int)
    requires
        0 <= i <= s.len(),
    ensures
        spec_parse_blocks(s, i) matches Parsed::Val(bs, _) ==> forall|t: int|
            0 <= t < bs.len() ==> spec_block_wf(#[trigger] bs[t]),
    decreases s.len() - i,
{
    lemma_skip_ws(s, i);
    let j = spec_skip_ws(s, i);
    if j < s.len() {
        lemma_parse_block_wf(s, j);
        lemma_parse_block_next(s, j);
        match spec_parse_block(s, j) {
            Parsed::Val(b, j2) => {
                lemma_parse_blocks_wf(s, spec_step(s, j, j2));
                match spec_parse_blocks(s, spec_step(s, j, j2)) {
                    Parsed::Val(blocks, _) => {
                        assert forall|t: int| 0 <= t < blocks.len() + 1 implies spec_block_wf(
                            #[trigger] (seq![b] + blocks)[t],
                        ) by {
                            if t > 0 {
                                assert((seq![b] + blocks)[t] == blocks[t - 1]);
                            }
                        }
                    },
                    Parsed::Fail(_) => {},
                }
            },
            Parsed::Fail(_) => {},
        }
    }
}

/// A successful value parse always advances and stays inside the text.
pub proof fn lemma_parse_value_next(s: Seq<char>, i: int)
    requires
        0 <= i <= s.len(),
    ensures
        match spec_parse_value(s, i) {
            Parsed::Val(_, j) => i < j <= s.len(),
            Parsed::Fail(_) => true,
        },
    decreases s.len() - i, 0int,
{
    if matches_at(s, i, "text("@) {
        if i + 5 < s.len() && s[i + 5] == '"' {
            lemma_find_char(s, i + 6, '"');
        }
    } else if matches_at(s, i, "int("@) {
        reveal_strlit("int(");
        lemma_find_char(s, i + 4, ')');
    } else if matches_at(s, i, "bool("@) {
        reveal_strlit("bool(");
        lemma_find_char(s, i + 5, ')');
    } else if matches_at(s, i, "list("@) {
        reveal_strlit("list(");
        lemma_skip_ws(s, i + 5);
        let j = spec_skip_ws(s, i + 5);
        if !(j < s.len() && s[j] == ')') {
            lemma_parse_elems_next(s, j);
        }
    }
}

/// A successful element-list parse always advances and stays inside the
/// text.
pub proof fn lemma_parse_elems_next(s: Seq<char>, i: int)
    requires
        0 <= i <= s.len(),
    ensures
        match spec_parse_elems(s, i) {
            Parsed::Val(_, j) => i < j <= s.len(),
            Parsed::Fail(_) => true,
        },
    decreases s.len() - i, 1int,
{
    lemma_parse_value_next(s, i);
    match spec_parse_value(s, i) {
        Parsed::Val(v, j0) => {
            let j = spec_step(s, i, j0);
            lemma_skip_ws(s, j);
            let j1 = spec_skip_ws(s, j);
            if 0 <= j1 < s.len() && s[j1] == ',' {
                lemma_skip_ws(s, j1 + 1);
                let j2 = spec_skip_ws(s, j1 + 1);
                lemma_parse_elems_next(s, spec_step(s, j1, j2));
            }
        },
        Parsed::Fail(_) => {},
    }
}

/// A successful field-list parse always advances and stays inside the text.
pub proof fn lemma_parse_fields_next(s: Seq<char>, i: int)
    requires
        0 <= i <= s.len(),
    ensures
        match spec_parse_fields(s, i) {
            Parsed::Val(_, j) => i < j <= s.len(),
            Parsed::Fail(_) => true,
        },
    decreases s.len() - i,
{
    lemma_skip_ws(s, i);
    let j = spec_skip_ws(s, i);
    if j < s.len() && s[j] != '}' && is_letter_char(s[j]) {
        lemma_scan_ident(s, j);
        let k = spec_scan_ident(s, j);
        lemma_skip_ws(s, k);
        let j1 = spec_skip_ws(s, k);
        if j1 < s.len() && s[j1] == ':' {
            lemma_skip_ws(s, j1 + 1);
            let j2 = spec_skip_ws(s, j1 + 1);
            lemma_parse_value_next(s, j2);
            match spec_parse_value(s, j2) {
                Parsed::Val(_, j3) => {
                    lemma_parse_fields_next(s, spec_step(s, j2, j3));
                },
                Parsed::Fail(_) => {},
            }
        }
    }
}

/// A successful block parse always advances and stays inside the text.
pub proof fn lemma_parse_block_next(s: Seq<char>, i: int)
    requires
        0 <= i <= s.len(),
    ensures
        match spec_parse_block(s, i) {
            Parsed::Val(_, j) => i < j <= s.len(),
            Parsed::Fail(_) => true,
        },
{
    if 0 <= i < s.len() && is_letter_char(s[i]) {
        lemma_scan_ident(s, i);
        let k = spec_scan_ident(s, i);
        lemma_skip_ws(s, k);
        let j = spec_skip_ws(s, k);
        if j < s.len() && s[j] == '{' {
            lemma_parse_fields_next(s, j + 1);
        }
    }
}

fn is_ws(c: char) -> (r: bool)
    ensures
        r == is_ws_char(c),
{
    c == ' ' || c == '\t' || c == '\n' || c == '\r'
}

fn is_letter(c: char) -> (r: bool)
    ensures
        r == is_letter_char(c),
{
    ('a' <= c && c <= 'z') || ('A' <= c && c <= 'Z')
}

fn is_ident(c: char) -> (r: bool)
    ensures
        r == is_ident_char(c),
{
    is_letter(c) || ('0' <= c && c <= '9') || c == '_'
}

fn skip_ws(s: &str, n: usize, i: usize) -> (r: usize)
    requires
        n == s@.len(),
        i <= n,
    ensures
        r as int == spec_skip_ws(s@, i as int),
        i <= r <= n,
{
    let mut j = i;
    while j < n && is_ws(s.get_char(j))
        invariant
            n == s@.len(),
            i <= j <= n,
            spec_skip_ws(s@, i as int) == spec_skip_ws(s@, j as int),
        decreases n - j,
    {
        j = j + 1;
    }
    j
}

fn scan_ident(s: &str, n: usize, i: usize) -> (r: usize)
    requires
        n == s@.len(),
        i <= n,
    ensures
        r as int == spec_scan_ident(s@, i as int),
        i <= r <= n,
{
    let mut j = i;
    while j < n && is_ident(s.get_char(j))
        invariant
            n == s@.len(),
            i <= j <= n,
            spec_scan_ident(s@, i as int) == spec_scan_ident(s@, j as int),
        decreases n - j,
    {
        j = j + 1;
    }
    j
}

fn find_char(s: &str, n: usize, i: usize, c: char) -> (r: Option<usize>)
    requires
        n == s@.len(),
        i <= n,
    ensures
        match r {
            Some(p) => i <= p < n && spec_find_char(s@, i as int, c) == Some(p as int),
            None => spec_find_char(s@, i as int, c) is None,
        },
{
    let mut j = i;
    while j < n
        invariant
            n == s@.len(),
            i <= j <= n,
            spec_find_char(s@, i as int, c) == spec_find_char(s@, j as int, c),
        decreases n - j,
    {
        if s.get_char(j) == c {
            return Some(j);
        }
        j = j + 1;
    }
    None
}

fn match_at(s: &str, n: usize, i: usize, pat: &str) -> (r: bool)
    requires
        n == s@.len(),
        i <= n,
    ensures
        r == matches_at(s@, i as int, pat@),
{
    let m = pat.unicode_len();
    if m > n - i {
        return false;
    }
    let mut k: usize = 0;
    while k < m
        invariant
            n == s@.len(),
            m == pat@.len(),
            i + m <= n,
            k <= m,
            forall|t: int| 0 <= t < k ==> s@[i + t] == pat@[t],
        decreases m - k,
    {
        if s.get_char(i + k) != pat.get_char(k) {
            proof {
                if matches_at(s@, i as int, pat@) {
                    assert(s@.subrange(i as int, i + pat@.len() as int)[k as int] == s@[i + k]);
                }
            }
            return false;
        }
        k = k + 1;
    }
    proof {
        assert(s@.subrange(i as int, i + pat@.len() as int) =~= pat@);
    }
    true
}

pub(crate) fn range_eq(s: &str, n: usize, a: usize, b: usize, lit: &str) -> (r: bool)
    requires
        n == s@.len(),
        a <= b <= n,
    ensures
        r == (s@.subrange(a as int, b as int) == lit@),
{
    let m = lit.unicode_len();
    if b - a != m {
        proof {
            assert(s@.subrange(a as int, b as int).len() == b - a);
        }
        return false;
    }
    let mut k: usize = 0;
    while k < m
        invariant
            n == s@.len(),
            m == lit@.len(),
            a + m == b,
            b <= n,
            k <= m,
            forall|t: int| 0 <= t < k ==> s@[a + t] == lit@[t],
        decreases m - k,
    {
        if s.get_char(a + k) != lit.get_char(k) {
            proof {
                if s@.subrange(a as int, b as int) == lit@ {
                    assert(s@.subrange(a as int, b as int)[k as int] == s@[a + k]);
                }
            }
            return false;
        }
        k = k + 1;
    }
    proof {
        assert(s@.subrange(a as int, b as int) =~= lit@);
    }
    true
}

/// Compares two strings character by character.
pub fn str_eq(a: &str, b: &str) -> (r: bool)
    ensures
        r == (a@ == b@),
{
    let n = a.unicode_len();
    let m = b.unicode_len();
    if n != m {
        return false;
    }
    let mut k: usize = 0;
    while k < n
        invariant
            n == a@.len(),
            n == b@.len(),
            k <= n,
            forall|t: int| 0 <= t < k ==> a@[t] == b@[t],
        decreases n - k,
    {
        if a.get_char(k) != b.get_char(k) {
            proof {
                if a@ == b@ {
                    assert(a@[k as int] == b@[k as int]);
                }
            }
            return false;
        }
        k = k + 1;
    }
    proof {
        assert(a@ =~= b@);
    }
    true
}

fn parse_value(s: &str, n: usize, i: usize) -> (r: Result<(Value, usize), ParseError>)
    requires
        n == s@.len(),
        i <= n,
    ensures
        match r {
            Ok(p) => spec_parse_value(s@, i as int) == Parsed::Val(p.0@, p.1 as int) && i < p.1
                <= n,
            Err(e) => spec_parse_value(s@, i as int) == Parsed::<ValueView>::Fail(e@),
        },
    decreases n - i, 0int,
{
    if match_at(s, n, i, "text(") {
        proof {
            reveal_strlit("text(");
        }
        if i + 5 < n && s.get_char(i + 5) == '"' {
            match find_char(s, n, i + 6, '"') {
                Some(q) => {
                    if q + 1 < n && s.get_char(q + 1) == ')' {
                        let txt = s.substring_char(i + 6, q).to_owned();
                        Ok((Value::Text(txt), q + 2))
                    } else {
                        Err(ParseError::Value)
                    }
                },
                None => Err(ParseError::Value),
            }
        } else {
            Err(ParseError::Value)
        }
    } else if match_at(s, n, i, "int(") {
        proof {
            reveal_strlit("int(");
        }
        match find_char(s, n, i + 4, ')') {
            Some(p) => match crate::num::parse_i64_range(s, n, i + 4, p) {
                Some(v) => Ok((Value::Int(v), p + 1)),
                None => Err(ParseError::Other(String::from_str("i64 parse error"))),
            },
            None => Err(ParseError::Value),
        }
    } else if match_at(s, n, i, "bool(") {
        proof {
            reveal_strlit("bool(");
        }
        match find_char(s, n, i + 5, ')') {
            Some(p) => {
                if range_eq(s, n, i + 5, p, "true") {
                    Ok((Value::Bool(true), p + 1))
                } else if range_eq(s, n, i + 5, p, "yes") {
                    Ok((Value::Bool(true), p + 1))
                } else if range_eq(s, n, i + 5, p, "false") {
                    Ok((Value::Bool(false), p + 1))
                } else if range_eq(s, n, i + 5, p, "no") {
                    Ok((Value::Bool(false), p + 1))
                } else {
                    Err(ParseError::Other(String::from_str("bool parse error")))
                }
            },
            None => Err(ParseError::Value),
        }
    } else if match_at(s, n, i, "list(") {
        proof {
            reveal_strlit("list(");
        }
        let j = skip_ws(s, n, i + 5);
        if j < n && s.get_char(j) == ')' {
            let items: Vec<Value> = Vec::new();
            proof {
                assert(Value::seq_view(items@) =~= Seq::<ValueView>::empty());
            }
            Ok((Value::List(items), j + 1))
        } else {
            match parse_elems(s, n, j) {
                Ok(p) => Ok((Value::List(p.0), p.1)),
                Err(e) => Err(e),
            }
        }
    } else {
        Err(ParseError::Value)
    }
}

fn parse_elems(s: &str, n: usize, i: usize) -> (r: Result<(Vec<Value>, usize), ParseError>)
    requires
        n == s@.len(),
        i <= n,
    ensures
        match r {
            Ok(p) => spec_parse_elems(s@, i as int) == Parsed::Val(
                Value::seq_view(p.0@),
                p.1 as int,
            ) && i < p.1 <= n,
            Err(e) => spec_parse_elems(s@, i as int) == Parsed::<Seq<ValueView>>::Fail(e@),
        },
    decreases n - i, 1int,
{
    match parse_value(s, n, i) {
        Ok((v, j0)) => {
            proof {
                assert(spec_step(s@, i as int, j0 as int) == j0 as int);
            }
            let j1 = skip_ws(s, n, j0);
            if j1 < n && s.get_char(j1) == ',' {
                let j2 = skip_ws(s, n, j1 + 1);
                proof {
                    assert(spec_step(s@, j1 as int, j2 as int) == j2 as int);
                }
                match parse_elems(s, n, j2) {
                    Ok((items, j3)) => {
                        let mut items = items;
                        let ghost before = items@;
                        let ghost vv = v@;
                        items.insert(0, v);
                        proof {
                            Value::lemma_seq_view(items@);
                            Value::lemma_seq_view(before);
                            assert(Value::seq_view(items@) =~= seq![vv] + Value::seq_view(before));
                        }
                        Ok((items, j3))
                    },
                    Err(e) => Err(e),
                }
            } else if j1 < n && s.get_char(j1) == ')' {
                let ghost vv = v@;
                let mut items: Vec<Value> = Vec::new();
                items.push(v);
                proof {
                    Value::lemma_seq_view(items@);
                    assert(Value::seq_view(items@) =~= seq![vv]);
                }
                Ok((items, j1 + 1))
            } else {
                Err(ParseError::Value)
            }
        },
        Err(e) => Err(e),
    }
}

fn parse_fields(s: &str, n: usize, i: usize) -> (r: Result<(Vec<(String, Value)>, usize), ParseError>)
    requires
        n == s@.len(),
        i <= n,
    ensures
        match r {
            Ok(p) => spec_parse_fields(s@, i as int) == Parsed::Val(
                crate::fields_view(p.0@),
                p.1 as int,
            ) && i < p.1 <= n,
            Err(e) => spec_parse_fields(s@, i as int) == Parsed::<Seq<(Seq<char>, ValueView)>>::Fail(e@),
        },
    decreases n - i,
{
    let j = skip_ws(s, n, i);
    if j >= n {
        return Err(ParseError::Input);
    }
    let c = s.get_char(j);
    if c == '}' {
        let out: Vec<(String, Value)> = Vec::new();
        proof {
            assert(crate::fields_view(out@) =~= Seq::<(Seq<char>, ValueView)>::empty());
        }
        return Ok((out, j + 1));
    }
    if !is_letter(c) {
        return Err(ParseError::Field);
    }
    let k = scan_ident(s, n, j);
    let key = s.substring_char(j, k).to_owned();
    let j1 = skip_ws(s, n, k);
    if !(j1 < n && s.get_char(j1) == ':') {
        return Err(ParseError::Field);
    }
    let j2 = skip_ws(s, n, j1 + 1);
    match parse_value(s, n, j2) {
        Ok((v, j3)) => {
            proof {
                assert(spec_step(s@, j2 as int, j3 as int) == j3 as int);
            }
            match parse_fields(s, n, j3) {
                Ok((rest, j4)) => {
                    let mut rest = rest;
                    let ghost before = rest@;
                    let ghost kv = key@;
                    let ghost vv = v@;
                    rest.insert(0, (key, v));
                    proof {
                        assert(crate::fields_view(rest@) =~= seq![(kv, vv)] + crate::fields_view(
                            before,
                        ));
                    }
                    Ok((rest, j4))
                },
                Err(e) => Err(e),
            }
        },
        Err(e) => Err(e),
    }
}

fn parse_block(s: &str, n: usize, i: usize) -> (r: Result<(Block, usize), ParseError>)
    requires
        n == s@.len(),
        i <= n,
    ensures
        match r {
            Ok(p) => spec_parse_block(s@, i as int) == Parsed::Val(p.0@, p.1 as int) && i < p.1
                <= n,
            Err(e) => spec_parse_block(s@, i as int) == Parsed::<BlockView>::Fail(e@),
        },
{
    if !(i < n && is_letter(s.get_char(i))) {
        return Err(ParseError::Block);
    }
    let k = scan_ident(s, n, i);
    let name = s.substring_char(i, k).to_owned();
    let j = skip_ws(s, n, k);
    if !(j < n && s.get_char(j) == '{') {
        return Err(ParseError::Input);
    }
    match parse_fields(s, n, j + 1) {
        Ok((raw, j2)) => {
            let ghost name_view = name@;
            let ghost raw_view = crate::fields_view(raw@);
            let b = Block::new(name, raw);
            proof {
                assert(b@ =~= (BlockView {
                    name: name_view,
                    entries: insert_all(Seq::empty(), raw_view),
                }));
            }
            Ok((b, j2))
        },
        Err(e) => Err(e),
    }
}

fn parse_blocks(s: &str, n: usize, i: usize) -> (r: Result<(Vec<Block>, usize), ParseError>)
    requires
        n == s@.len(),
        i <= n,
    ensures
        match r {
            Ok(p) => spec_parse_blocks(s@, i as int) == Parsed::Val(
                crate::blocks_view(p.0@),
                p.1 as int,
            ) && i <= p.1 <= n,
            Err(e) => spec_parse_blocks(s@, i as int) == Parsed::<Seq<BlockView>>::Fail(e@),
        },
    decreases n - i,
{
    let j = skip_ws(s, n, i);
    if j >= n {
        let out: Vec<Block> = Vec::new();
        proof {
            assert(crate::blocks_view(out@) =~= Seq::<BlockView>::empty());
        }
        return Ok((out, j));
    }
    match parse_block(s, n, j) {
        Ok((b, j2)) => {
            proof {
                assert(spec_step(s@, j as int, j2 as int) == j2 as int);
            }
            match parse_blocks(s, n, j2) {
                Ok((rest, j3)) => {
                    let mut rest = rest;
                    let ghost before = rest@;
                    let ghost bv = b@;
                    rest.insert(0, b);
                    proof {
                        assert(crate::blocks_view(rest@) =~= seq![bv] + crate::blocks_view(before));
                    }
                    Ok((rest, j3))
                },
                Err(e) => Err(e),
            }
        },
        Err(e) => Err(e),
    }
}

/// Parses a whole document into its blocks, in textual order, or reports
/// the first error, classified as in [`crate::error::ParseError`].
///
/// Every block handed out is well formed: an identifier name over uniquely
/// keyed fields.
pub fn parse_input(input: &str) -> (r: Result<Vec<Block>, ParseError>)
    ensures
        match r {
            Ok(blocks) => spec_parse_input(input@) matches Ok(bs) && bs == crate::blocks_view(
                blocks@,
            ) && forall|t: int| 0 <= t < blocks@.len() ==> spec_block_wf(#[trigger] blocks@[t]@),
            Err(e) => spec_parse_input(input@) matches Err(ev) && ev == e@,
        },
{
    let n = input.unicode_len();
    proof {
        lemma_parse_blocks_wf(input@, 0);
    }
    match parse_blocks(input, n, 0) {
        Ok(p) => {
            proof {
                assert forall|t: int| 0 <= t < p.0@.len() implies spec_block_wf(
                    #[trigger] p.0@[t]@,
                ) by {
                    assert(crate::blocks_view(p.0@)[t] == p.0@[t]@);
                }
            }
            Ok(p.0)
        },
        Err(e) => Err(e),
    }
}

} // verus!

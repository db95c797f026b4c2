//! The serialization bridge: renders a caller record as a block.
//!
//! The write path supports records whose declared fields are strings,
//! 64-bit integers and booleans; sequences and nested records are not
//! supported on this path (a deliberate read/write asymmetry), and the
//! bridge offers no operation that would render them.

use vstd::prelude::*;

use crate::error::SirtSerializeError;
use crate::model::ValueView;
use crate::num::{append_i64, spec_i64_chars};

verus! {

/// The rendering of one scalar value.  A list never reaches the write
/// path: no serializer operation produces one.
pub open spec fn spec_render_value(v: ValueView) -> Seq<char> {
    match v {
        ValueView::Text(t) => "text(\""@ + t + "\")"@,
        ValueView::Int(n) => "int("@ + spec_i64_chars(n) + ")"@,
        ValueView::Bool(b) => if b {
            "bool(true)"@
        } else {
            "bool(false)"@
        },
        ValueView::List(_) => Seq::empty(),
    }
}

/// The rendering of one field: its indent, key, separator, value and
/// terminator.
pub open spec fn spec_render_field(key: Seq<char>, v: ValueView, pretty: bool) -> Seq<char> {
    (if pretty {
        "\t"@
    } else {
        Seq::<char>::empty()
    }) + key + ": "@ + spec_render_value(v) + (if pretty {
        "\n"@
    } else {
        Seq::<char>::empty()
    }) + " "@
}

/// The rendering of a record's fields, in declared order.
pub open spec fn spec_render_fields(fields: Seq<(Seq<char>, ValueView)>, pretty: bool) -> Seq<
    char,
>
    decreases fields.len(),
{
    if fields.len() == 0 {
        Seq::empty()
    } else {
        spec_render_field(fields[0].0, fields[0].1, pretty) + spec_render_fields(
            fields.drop_first(),
            pretty,
        )
    }
}

/// The full rendering of a record block under a name.
pub open spec fn spec_render_block(
    name: Seq<char>,
    fields: Seq<(Seq<char>, ValueView)>,
    pretty: bool,
) -> Seq<char> {
    name + " { "@ + (if pretty {
        "\n"@
    } else {
        Seq::<char>::empty()
    }) + spec_render_fields(fields, pretty) + "}"@ + (if pretty {
        "\n"@
    } else {
        Seq::<char>::empty()
    })
}

/// The growing rendering of one block, in compact or pretty mode.
pub struct SirtSerializer {
    output: String,
    prettify: bool,
}

impl SirtSerializer {
    /// The text rendered so far.
    pub closed spec fn out(self) -> Seq<char> {
        self.output@
    }

    /// Whether the pretty mode was chosen.
    pub closed spec fn pretty(self) -> bool {
        self.prettify
    }

    /// Starts a rendering: the block name and the opening delimiter, plus
    /// a newline in pretty mode.
    pub fn new(name: &str, prettify: bool) -> (r: Self)
        ensures
            r.out() == name@ + " { "@ + (if prettify {
                "\n"@
            } else {
                Seq::<char>::empty()
            }),
            r.pretty() == prettify,
    {
        let mut output = String::new();
        output.append(name);
        output.append(" { ");
        if prettify {
            output.append("\n");
        }
        let r = SirtSerializer { output, prettify };
        proof {
            assert(r.out() =~= name@ + " { "@ + (if prettify {
                "\n"@
            } else {
                Seq::<char>::empty()
            }));
        }
        r
    }

    fn newline(&mut self)
        ensures
            final(self).out() == old(self).out() + "\n"@,
            final(self).pretty() == old(self).pretty(),
    {
        self.output.append("\n");
    }

    /// Renders a boolean, in its canonical spelling.
    pub fn serialize_bool(&mut self, v: bool)
        ensures
            final(self).out() == old(self).out() + spec_render_value(ValueView::Bool(v)),
            final(self).pretty() == old(self).pretty(),
    {
        if v {
            self.output.append("bool(true)");
        } else {
            self.output.append("bool(false)");
        }
    }

    /// Renders a 64-bit integer.
    pub fn serialize_i64(&mut self, v: i64)
        ensures
            final(self).out() == old(self).out() + spec_render_value(ValueView::Int(v as int)),
            final(self).pretty() == old(self).pretty(),
    {
        self.output.append("int(");
        append_i64(&mut self.output, v);
        self.output.append(")");
        proof {
            assert(self.out() =~= old(self).out() + spec_render_value(ValueView::Int(v as int)));
        }
    }

    /// Renders a string, verbatim between the quote marks.
    pub fn serialize_str(&mut self, v: &str)
        ensures
            final(self).out() == old(self).out() + spec_render_value(ValueView::Text(v@)),
            final(self).pretty() == old(self).pretty(),
    {
        self.output.append("text(\"");
        self.output.append(v);
        self.output.append("\")");
        proof {
            assert(self.out() =~= old(self).out() + spec_render_value(ValueView::Text(v@)));
        }
    }

    /// Declares the record shape: its fields follow, one by one.
    pub fn serialize_struct(self) -> (r: SirtStructSerializer)
        ensures
            r.out() == self.out(),
            r.pretty() == self.pretty(),
    {
        SirtStructSerializer { ser: self }
    }

    /// Closes the rendering and yields the text.
    pub fn complete(self) -> (r: String)
        ensures
            r@ == self.out() + "}"@ + (if self.pretty() {
                "\n"@
            } else {
                Seq::<char>::empty()
            }),
    {
        let mut output = self.output;
        output.append("}");
        if self.prettify {
            output.append("\n");
        }
        proof {
            assert(output@ =~= self.out() + "}"@ + (if self.pretty() {
                "\n"@
            } else {
                Seq::<char>::empty()
            }));
        }
        output
    }
}

/// The field-by-field rendering of one record.
pub struct SirtStructSerializer {
    ser: SirtSerializer,
}

impl SirtStructSerializer {
    /// The text rendered so far.
    pub closed spec fn out(self) -> Seq<char> {
        self.ser.out()
    }

    /// Whether the pretty mode was chosen.
    pub closed spec fn pretty(self) -> bool {
        self.ser.pretty()
    }

    fn begin_field(&mut self, key: &str)
        ensures
            final(self).out() == old(self).out() + (if old(self).pretty() {
                "\t"@
            } else {
                Seq::<char>::empty()
            }) + key@ + ": "@,
            final(self).pretty() == old(self).pretty(),
    {
        if self.ser.prettify {
            self.ser.output.append("\t");
        }
        self.ser.output.append(key);
        self.ser.output.append(": ");
        proof {
            assert(self.out() =~= old(self).out() + (if old(self).pretty() {
                "\t"@
            } else {
                Seq::<char>::empty()
            }) + key@ + ": "@);
        }
    }

    fn end_field(&mut self)
        ensures
            final(self).out() == old(self).out() + (if old(self).pretty() {
                "\n"@
            } else {
                Seq::<char>::empty()
            }) + " "@,
            final(self).pretty() == old(self).pretty(),
    {
        if self.ser.prettify {
            self.ser.newline();
        }
        self.ser.output.append(" ");
        proof {
            assert(self.out() =~= old(self).out() + (if old(self).pretty() {
                "\n"@
            } else {
                Seq::<char>::empty()
            }) + " "@);
        }
    }

    /// Renders one string field.
    pub fn serialize_field_str(&mut self, key: &str, v: &str)
        ensures
            final(self).out() == old(self).out() + spec_render_field(
                key@,
                ValueView::Text(v@),
                old(self).pretty(),
            ),
            final(self).pretty() == old(self).pretty(),
    {
        self.begin_field(key);
        self.ser.serialize_str(v);
        self.end_field();
        proof {
            assert(self.out() =~= old(self).out() + spec_render_field(
                key@,
                ValueView::Text(v@),
                old(self).pretty(),
            ));
        }
    }

    /// Renders one 64-bit integer field.
    pub fn serialize_field_i64(&mut self, key: &str, v: i64)
        ensures
            final(self).out() == old(self).out() + spec_render_field(
                key@,
                ValueView::Int(v as int),
                old(self).pretty(),
            ),
            final(self).pretty() == old(self).pretty(),
    {
        self.begin_field(key);
        self.ser.serialize_i64(v);
        self.end_field();
        proof {
            assert(self.out() =~= old(self).out() + spec_render_field(
                key@,
                ValueView::Int(v as int),
                old(self).pretty(),
            ));
        }
    }

    /// Renders one boolean field.
    pub fn serialize_field_bool(&mut self, key: &str, v: bool)
        ensures
            final(self).out() == old(self).out() + spec_render_field(
                key@,
                ValueView::Bool(v),
                old(self).pretty(),
            ),
            final(self).pretty() == old(self).pretty(),
    {
        self.begin_field(key);
        self.ser.serialize_bool(v);
        self.end_field();
        proof {
            assert(self.out() =~= old(self).out() + spec_render_field(
                key@,
                ValueView::Bool(v),
                old(self).pretty(),
            ));
        }
    }

    /// Ends the record.
    pub fn end(self) -> (r: SirtSerializer)
        ensures
            r.out() == self.out(),
            r.pretty() == self.pretty(),
    {
        self.ser
    }
}

/// A record type that can render itself as a block through the write-path
/// bridge.
///
/// An implementation declares, as the spec function `spec_fields`, its
/// fields in declared order — each a name and a scalar value — and proves
/// that its `serialize` walk renders exactly those.
pub trait SirtSerialize {
    /// The record's fields: names and scalar values, in declared order.
    /// The default declares none; an implementation whose rendering is
    /// verified overrides it, and `serialize` is then held to it.
    open spec fn spec_fields(&self) -> Seq<(Seq<char>, ValueView)> {
        Seq::empty()
    }

    /// Renders the record's fields into `s`, in declared order.
    fn serialize(&self, s: &mut SirtStructSerializer) -> (r: Result<(), SirtSerializeError>)
        ensures
            r matches Ok(_) ==> final(s).out() == old(s).out() + spec_render_fields(
                self.spec_fields(),
                old(s).pretty(),
            ) && final(s).pretty() == old(s).pretty(),
    ;
}

/// Renders `value` as a block named `name`, on one line.
pub fn to_string<T: SirtSerialize>(name: &str, value: &T) -> (r: Result<
    String,
    SirtSerializeError,
>)
    ensures
        r matches Ok(out) ==> out@ == spec_render_block(name@, value.spec_fields(), false),
{
    let s = SirtSerializer::new(name, false);
    let mut st = s.serialize_struct();
    match value.serialize(&mut st) {
        Ok(_) => {
            let out = st.end().complete();
            proof {
                assert(out@ =~= spec_render_block(name@, value.spec_fields(), false));
            }
            Ok(out)
        },
        Err(e) => Err(e),
    }
}

/// Renders `value` as a block named `name`, with a newline after the
/// opening delimiter, each field on its own tab-indented line, and a
/// trailing newline.
pub fn to_pretty_string<T: SirtSerialize>(name: &str, value: &T) -> (r: Result<
    String,
    SirtSerializeError,
>)
    ensures
        r matches Ok(out) ==> out@ == spec_render_block(name@, value.spec_fields(), true),
{
    let s = SirtSerializer::new(name, true);
    let mut st = s.serialize_struct();
    match value.serialize(&mut st) {
        Ok(_) => {
            let out = st.end().complete();
            proof {
                assert(out@ =~= spec_render_block(name@, value.spec_fields(), true));
            }
            Ok(out)
        },
        Err(e) => Err(e),
    }
}

} // verus!

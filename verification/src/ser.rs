//! The writer: visitor-style emission calls that append text to an output
//! buffer, in canonical (compact) mode or in pretty mode governed by a
//! [`PrettyConfig`]. The exact canonical text of every [`Item`] is given by
//! the spec function [`spec_can`]; in pretty mode each helper states its
//! local effect exactly and the composite text is checked by tests.

use vstd::prelude::*;

use crate::digits::{fmt_i64_into, fmt_u64_into, spec_dec_str, spec_dec_str_signed};
use crate::ident::{
    is_ident_first_char, is_ident_other_char, spec_is_ident, spec_is_ident_first_char,
    spec_is_ident_other_char,
};
use crate::item::Item;
use crate::outside::{
    b64_encode, b64_of, esc_debug_of, escape_debug_char, f32_dec_of, f64_dec_of, fmt_f32_bits,
    fmt_f64_bits,
};
use crate::strutil::{chars_to_string, push_str_chars};
use vstd::string::StrSliceExecFns;
use crate::value::{spec_value_item, value_to_item, Number, Value};

verus! {

/// The spelling of a char inside single quotes: only the quote itself and
/// the backslash are escaped.
pub open spec fn spec_esc_char(c: char) -> Seq<char> {
    if c == '\\' || c == '\'' {
        seq!['\\', c]
    } else {
        seq![c]
    }
}

/// The debug-escaped spelling of a whole string (concatenation of
/// [`esc_debug_of`] over its characters).
pub open spec fn spec_esc_str(s: Seq<char>) -> Seq<char>
    decreases s.len(),
{
    if s.len() == 0 {
        Seq::empty()
    } else {
        spec_esc_str(s.drop_last()) + esc_debug_of(s.last())
    }
}

/// How an identifier is written: bare when it fits the identifier grammar,
/// otherwise with the reserved `r#` prefix.
pub open spec fn spec_ident_out(name: Seq<char>) -> Seq<char> {
    if spec_is_ident(name) {
        name
    } else {
        seq!['r', '#'] + name
    }
}

/// Whether decimal text spells an integral value: at least one digit, a
/// minus sign possible only in front, no dot and no exponent.
pub open spec fn spec_is_integral_text(s: Seq<char>) -> bool {
    &&& s.len() > 0
    &&& (s[0] == '-' ==> s.len() > 1)
    &&& forall|i: int|
        0 <= i < s.len() ==> (crate::ident::spec_is_digit(#[trigger] s[i]) || (i == 0 && s[i]
            == '-'))
}

/// The trailing `.0` appended when decimal-float forcing is on and the text
/// spells an integral value.
pub open spec fn spec_float_suffix(txt: Seq<char>, force: bool) -> Seq<char> {
    if force && spec_is_integral_text(txt) {
        seq!['.', '0']
    } else {
        Seq::empty()
    }
}

/// The canonical (compact) text of `it`. `nv` says whether `it` is the
/// immediate payload of a newtype-style wrapper, whose parentheses it then
/// reuses instead of adding its own delimiters.
pub open spec fn spec_can(it: Item, nv: bool) -> Seq<char>
    decreases it, 2int,
{
    match it {
        Item::Bool(b) => if b {
            seq!['t', 'r', 'u', 'e']
        } else {
            seq!['f', 'a', 'l', 's', 'e']
        },
        Item::Char(c) => seq!['\''] + spec_esc_char(c) + seq!['\''],
        Item::I8(v) => spec_dec_str_signed(v as int),
        Item::I16(v) => spec_dec_str_signed(v as int),
        Item::I32(v) => spec_dec_str_signed(v as int),
        Item::I64(v) => spec_dec_str_signed(v as int),
        Item::U8(v) => spec_dec_str(v as nat),
        Item::U16(v) => spec_dec_str(v as nat),
        Item::U32(v) => spec_dec_str(v as nat),
        Item::U64(v) => spec_dec_str(v as nat),
        Item::F32(b) => f32_dec_of(b),
        Item::F64(b) => f64_dec_of(b),
        Item::Str(s) => seq!['"'] + spec_esc_str(s@) + seq!['"'],
        Item::Bytes(v) => seq!['"'] + spec_esc_str(b64_of(v@)) + seq!['"'],
        Item::Option(o) => match o {
            None => seq!['N', 'o', 'n', 'e'],
            Some(x) => spec_can(*x, nv),
        },
        Item::Unit => if nv {
            Seq::empty()
        } else {
            seq!['(', ')']
        },
        Item::UnitStruct(_) => if nv {
            Seq::empty()
        } else {
            seq!['(', ')']
        },
        Item::UnitVariant(v) => spec_ident_out(v@),
        Item::NewtypeStruct(_, x) => seq!['('] + spec_can(*x, false) + seq![')'],
        Item::NewtypeVariant(v, x) => spec_ident_out(v@) + seq!['('] + spec_can(*x, true) + seq![
            ')',
        ],
        Item::List(xs) => seq!['['] + spec_can_list(xs@) + seq![']'],
        Item::Tuple(xs) => if nv {
            spec_can_list(xs@)
        } else {
            seq!['('] + spec_can_list(xs@) + seq![')']
        },
        Item::TupleStruct(_, xs) => if nv {
            spec_can_list(xs@)
        } else {
            seq!['('] + spec_can_list(xs@) + seq![')']
        },
        Item::TupleVariant(v, xs) => spec_ident_out(v@) + seq!['('] + spec_can_list(xs@) + seq![
            ')',
        ],
        Item::Mapping(es) => seq!['{'] + spec_can_entries(es@) + seq!['}'],
        Item::Struct(_, fs) => if nv {
            spec_can_fields(fs@)
        } else {
            seq!['{'] + spec_can_fields(fs@) + seq!['}']
        },
        Item::StructVariant(v, fs) => spec_ident_out(v@) + seq!['{'] + spec_can_fields(fs@) + seq![
            '}',
        ],
    }
}

/// Canonical elements joined by commas.
pub open spec fn spec_can_list(xs: Seq<Item>) -> Seq<char>
    decreases xs, 1int,
{
    if xs.len() == 0 {
        Seq::empty()
    } else if xs.len() == 1 {
        spec_can(xs[0], false)
    } else {
        spec_can_list(xs.drop_last()) + seq![','] + spec_can(xs.last(), false)
    }
}

/// Canonical `key:value` entries joined by commas.
pub open spec fn spec_can_entries(es: Seq<(Item, Item)>) -> Seq<char>
    decreases es, 1int,
{
    if es.len() == 0 {
        Seq::empty()
    } else {
        let head = if es.len() == 1 {
            Seq::<char>::empty()
        } else {
            spec_can_entries(es.drop_last()) + seq![',']
        };
        head + spec_can(es.last().0, false) + seq![':'] + spec_can(es.last().1, false)
    }
}

/// Canonical `field:value` entries joined by commas.
pub open spec fn spec_can_fields(fs: Seq<(String, Item)>) -> Seq<char>
    decreases fs, 1int,
{
    if fs.len() == 0 {
        Seq::empty()
    } else {
        let head = if fs.len() == 1 {
            Seq::<char>::empty()
        } else {
            spec_can_fields(fs.drop_last()) + seq![',']
        };
        head + spec_ident_out(fs.last().0@) + seq![':'] + spec_can(fs.last().1, false)
    }
}

/// `s` repeated `n` times.
pub open spec fn spec_repeat(s: Seq<char>, n: nat) -> Seq<char>
    decreases n,
{
    if n == 0 {
        Seq::empty()
    } else {
        spec_repeat(s, (n - 1) as nat) + s
    }
}

/// The pretty-printer state carried across one call: current indent depth
/// and the per-open-sequence element counters.
pub struct Pretty {
    pub indent: usize,
    pub sequence_index: Vec<usize>,
}

/// The pretty-mode configuration record, immutable after construction.
pub struct PrettyConfig {
    pub depth_limit: usize,
    pub new_line: String,
    pub indentor: String,
    pub separator: String,
    pub struct_names: bool,
    pub separate_tuple_members: bool,
    pub enumerate_arrays: bool,
    pub decimal_floats: bool,
    pub compact_arrays: bool,
}

/// The defaults: unlimited depth, `"\n"` line breaks, four-space indent,
/// single-space separator, every switch off.
pub open spec fn spec_default_config(c: PrettyConfig) -> bool {
    &&& c.depth_limit == usize::MAX
    &&& c.new_line@ == seq!['\n']
    &&& c.indentor@ == seq![' ', ' ', ' ', ' ']
    &&& c.separator@ == seq![' ']
    &&& !c.struct_names
    &&& !c.separate_tuple_members
    &&& !c.enumerate_arrays
    &&& !c.decimal_floats
    &&& !c.compact_arrays
}

impl Default for PrettyConfig {
    fn default() -> (r: Self)
        ensures
            spec_default_config(r),
    {
        let r = PrettyConfig {
            depth_limit: usize::MAX,
            new_line: String::from_str("\n"),
            indentor: String::from_str("    "),
            separator: String::from_str(" "),
            struct_names: false,
            separate_tuple_members: false,
            enumerate_arrays: false,
            decimal_floats: false,
            compact_arrays: false,
        };
        proof {
            reveal_strlit("\n");
            reveal_strlit("    ");
            reveal_strlit(" ");
            assert(r.new_line@ =~= seq!['\n']);
            assert(r.indentor@ =~= seq![' ', ' ', ' ', ' ']);
            assert(r.separator@ =~= seq![' ']);
        }
        r
    }
}

impl PrettyConfig {
    /// A configuration with every option at its default.
    pub fn new() -> (r: Self)
        ensures
            spec_default_config(r),
    {
        Default::default()
    }

    /// Stops adding indentation and line breaks below this nesting depth.
    pub fn depth_limit(self, depth_limit: usize) -> (r: Self)
        ensures
            r == (PrettyConfig { depth_limit, ..self }),
    {
        PrettyConfig { depth_limit, ..self }
    }

    /// The text written at each line break.
    pub fn new_line(self, new_line: String) -> (r: Self)
        ensures
            r == (PrettyConfig { new_line, ..self }),
    {
        PrettyConfig { new_line, ..self }
    }

    /// The text repeated once per indentation level.
    pub fn indentor(self, indentor: String) -> (r: Self)
        ensures
            r == (PrettyConfig { indentor, ..self }),
    {
        PrettyConfig { indentor, ..self }
    }

    /// The text written after a colon and between compact elements.
    pub fn separator(self, separator: String) -> (r: Self)
        ensures
            r == (PrettyConfig { separator, ..self }),
    {
        PrettyConfig { separator, ..self }
    }

    /// Whether to write the type name before a struct's field list.
    pub fn struct_names(self, struct_names: bool) -> (r: Self)
        ensures
            r == (PrettyConfig { struct_names, ..self }),
    {
        PrettyConfig { struct_names, ..self }
    }

    /// Whether every tuple member gets its own indented line.
    pub fn separate_tuple_members(self, separate_tuple_members: bool) -> (r: Self)
        ensures
            r == (PrettyConfig { separate_tuple_members, ..self }),
    {
        PrettyConfig { separate_tuple_members, ..self }
    }

    /// Whether each sequence element is prefixed with an index comment.
    pub fn enumerate_arrays(self, enumerate_arrays: bool) -> (r: Self)
        ensures
            r == (PrettyConfig { enumerate_arrays, ..self }),
    {
        PrettyConfig { enumerate_arrays, ..self }
    }

    /// Whether a trailing `.0` is added to integral floats.
    pub fn decimal_floats(self, decimal_floats: bool) -> (r: Self)
        ensures
            r == (PrettyConfig { decimal_floats, ..self }),
    {
        PrettyConfig { decimal_floats, ..self }
    }

    /// Whether sequences stay on one line even in pretty mode.
    pub fn compact_arrays(self, compact_arrays: bool) -> (r: Self)
        ensures
            r == (PrettyConfig { compact_arrays, ..self }),
    {
        PrettyConfig { compact_arrays, ..self }
    }
}

/// The writer: an output buffer of characters, the optional pretty state,
/// the emptiness hint for the compound being opened, and the one-shot flag
/// marking the payload of a newtype variant.
pub struct Serializer {
    pub output: Vec<char>,
    pub pretty: Option<(PrettyConfig, Pretty)>,
    pub is_empty: Option<bool>,
    pub newtype_variant: bool,
}

impl Serializer {
    /// Whether the writer is in canonical (compact) mode.
    pub open spec fn is_compact(&self) -> bool {
        self.pretty is None
    }

    /// The configuration, in pretty mode.
    pub open spec fn spec_config(&self) -> Option<PrettyConfig> {
        match self.pretty {
            Some((c, _)) => Some(c),
            None => None,
        }
    }

    pub open spec fn spec_struct_names(&self) -> bool {
        match self.pretty {
            Some((c, _)) => c.struct_names,
            None => false,
        }
    }

    pub open spec fn spec_decimal_floats(&self) -> bool {
        match self.pretty {
            Some((c, _)) => c.decimal_floats,
            None => false,
        }
    }

    pub open spec fn spec_compact_arrays(&self) -> bool {
        match self.pretty {
            Some((c, _)) => c.compact_arrays,
            None => false,
        }
    }

    pub open spec fn spec_separate_tuple_members(&self) -> bool {
        match self.pretty {
            Some((c, _)) => c.separate_tuple_members,
            None => false,
        }
    }

    /// A fresh writer; pretty mode exactly when a configuration is given.
    pub fn new(config: Option<PrettyConfig>) -> (r: Serializer)
        ensures
            r.output@ == Seq::<char>::empty(),
            r.spec_config() == config,
            config is Some ==> (r.pretty matches Some((c, p)) && c == config->0 && p.indent == 0
                && p.sequence_index@ == Seq::<usize>::empty()),
            r.is_empty is None,
            !r.newtype_variant,
    {
        Self::with_options(config)
    }

    /// Same as [`Serializer::new`].
    pub fn with_options(config: Option<PrettyConfig>) -> (r: Serializer)
        ensures
            r.output@ == Seq::<char>::empty(),
            r.spec_config() == config,
            config is Some ==> (r.pretty matches Some((c, p)) && c == config->0 && p.indent == 0
                && p.sequence_index@ == Seq::<usize>::empty()),
            r.is_empty is None,
            !r.newtype_variant,
    {
        let pretty = match config {
            Some(conf) => Some((conf, Pretty { indent: 0, sequence_index: Vec::new() })),
            None => None,
        };
        Serializer { output: Vec::new(), pretty, is_empty: None, newtype_variant: false }
    }

    pub fn separate_tuple_members(&self) -> (r: bool)
        ensures
            r == self.spec_separate_tuple_members(),
    {
        match &self.pretty {
            Some((config, _)) => config.separate_tuple_members,
            None => false,
        }
    }

    pub fn decimal_floats(&self) -> (r: bool)
        ensures
            r == self.spec_decimal_floats(),
    {
        match &self.pretty {
            Some((config, _)) => config.decimal_floats,
            None => false,
        }
    }

    pub fn compact_arrays(&self) -> (r: bool)
        ensures
            r == self.spec_compact_arrays(),
    {
        match &self.pretty {
            Some((config, _)) => config.compact_arrays,
            None => false,
        }
    }

    pub fn struct_names(&self) -> (r: bool)
        ensures
            r == self.spec_struct_names(),
    {
        match &self.pretty {
            Some((config, _)) => config.struct_names,
            None => false,
        }
    }
}

/// `n + 1`, capped at the largest `usize`.
pub open spec fn spec_sat_inc(n: usize) -> usize {
    if n == usize::MAX {
        usize::MAX
    } else {
        (n + 1) as usize
    }
}

/// `n - 1`, floored at zero.
pub open spec fn spec_sat_dec(n: usize) -> usize {
    if n == 0 {
        0
    } else {
        (n - 1) as usize
    }
}

/// Everything but the output buffer is unchanged between `a` and `b`.
pub open spec fn spec_same_state(a: Serializer, b: Serializer) -> bool {
    &&& a.pretty == b.pretty
    &&& a.is_empty == b.is_empty
    &&& a.newtype_variant == b.newtype_variant
}

/// The emptiness hint a length hint leaves behind.
pub open spec fn spec_emp_after(len: Option<usize>, prev: Option<bool>) -> Option<bool> {
    match len {
        Some(l) => Some(l == 0),
        None => prev,
    }
}

/// The text owed when an indentation level opens under the hint `emp`: a
/// line break, unless the compound is empty, the depth limit is exceeded,
/// or the writer is canonical.
pub open spec fn spec_start_break(ser: Serializer, emp: Option<bool>) -> Seq<char> {
    match ser.pretty {
        Some((c, p)) => if spec_sat_inc(p.indent) <= c.depth_limit && emp != Some(true) {
            c.new_line@
        } else {
            Seq::empty()
        },
        None => Seq::empty(),
    }
}

/// The text owed before a non-first element: a comma, then in pretty mode
/// a line break (or the separator text when the depth limit is exceeded or
/// the compound stays compact).
pub open spec fn spec_elem_sep(ser: Serializer, first: bool, compact_kind: bool) -> Seq<char> {
    if first {
        Seq::empty()
    } else {
        seq![','] + match ser.pretty {
            Some((c, p)) => if p.indent <= c.depth_limit && !compact_kind {
                c.new_line@
            } else {
                c.separator@
            },
            None => Seq::empty(),
        }
    }
}

/// The indentation text owed at the writer's current depth.
pub open spec fn spec_indent_text(ser: Serializer) -> Seq<char> {
    match ser.pretty {
        Some((c, p)) => if p.indent <= c.depth_limit {
            spec_repeat(c.indentor@, p.indent as nat)
        } else {
            Seq::empty()
        },
        None => Seq::empty(),
    }
}

/// The trailing comma and line break owed before a closing delimiter.
pub open spec fn spec_trailing_text(ser: Serializer, rest: bool, want: bool) -> Seq<char> {
    if rest && want {
        match ser.pretty {
            Some((c, p)) => if p.indent <= c.depth_limit {
                seq![','] + c.new_line@
            } else {
                Seq::empty()
            },
            None => Seq::empty(),
        }
    } else {
        Seq::empty()
    }
}

/// The un-indentation text owed when a level closes.
pub open spec fn spec_close_indent(ser: Serializer) -> Seq<char> {
    match ser.pretty {
        Some((c, p)) => if p.indent <= c.depth_limit && ser.is_empty != Some(true) {
            spec_repeat(c.indentor@, spec_sat_dec(p.indent) as nat)
        } else {
            Seq::empty()
        },
        None => Seq::empty(),
    }
}

/// The index-annotation comment owed before a sequence element.
pub open spec fn spec_annotation_text(ser: Serializer) -> Seq<char> {
    match ser.pretty {
        Some((c, p)) => if p.indent <= c.depth_limit && c.enumerate_arrays
            && p.sequence_index@.len() > 0 {
            seq!['/', '*', '['] + spec_dec_str(p.sequence_index@.last() as nat) + seq![
                ']',
                '*',
                '/',
                ' ',
            ]
        } else {
            Seq::empty()
        },
        None => Seq::empty(),
    }
}

impl Serializer {
    /// Opens one indentation level: the depth grows by one and, while the
    /// depth limit is not exceeded and the compound being opened is not
    /// empty, a line break is written.
    pub fn start_indent(&mut self)
        ensures
            old(self).pretty is None ==> *final(self) == *old(self),
            old(self).pretty matches Some((c, p)) ==> {
                &&& final(self).pretty == Some(
                    (c, Pretty { indent: spec_sat_inc(p.indent), sequence_index: p.sequence_index }),
                )
                &&& final(self).output@ == old(self).output@ + (if spec_sat_inc(p.indent)
                    <= c.depth_limit && old(self).is_empty != Some(true) {
                    c.new_line@
                } else {
                    Seq::<char>::empty()
                })
                &&& final(self).is_empty == old(self).is_empty
                &&& final(self).newtype_variant == old(self).newtype_variant
            },
    {
        let is_empty = match self.is_empty {
            Some(b) => b,
            None => false,
        };
        let mut nl: Option<String> = None;
        if let Some((config, pretty)) = &mut self.pretty {
            if pretty.indent < usize::MAX {
                pretty.indent = pretty.indent + 1;
            }
            if pretty.indent <= config.depth_limit && !is_empty {
                nl = Some(config.new_line.clone());
            }
        }
        if let Some(nl) = nl {
            push_str_chars(&mut self.output, nl.as_str());
        }
    }

    /// Writes the indent text once per open indentation level, while the
    /// depth limit is not exceeded.
    pub fn indent(&mut self)
        ensures
            spec_same_state(*old(self), *final(self)),
            old(self).pretty is None ==> final(self).output@ == old(self).output@,
            old(self).pretty matches Some((c, p)) ==> final(self).output@ == old(self).output@ + (
            if p.indent <= c.depth_limit {
                spec_repeat(c.indentor@, p.indent as nat)
            } else {
                Seq::<char>::empty()
            }),
    {
        let mut job: Option<(usize, String)> = None;
        if let Some((config, pretty)) = &self.pretty {
            if pretty.indent <= config.depth_limit {
                job = Some((pretty.indent, config.indentor.clone()));
            }
        }
        if let Some((n, ind)) = job {
            let mut i: usize = 0;
            while i < n
                invariant
                    i <= n,
                    self.pretty == old(self).pretty,
                    self.is_empty == old(self).is_empty,
                    self.newtype_variant == old(self).newtype_variant,
                    self.output@ == old(self).output@ + spec_repeat(ind@, i as nat),
                decreases n - i,
            {
                push_str_chars(&mut self.output, ind.as_str());
                i += 1;
            }
        }
    }

    /// Closes one indentation level: writes the indent text for the parent
    /// level (unless the compound was empty or the depth limit is
    /// exceeded), shrinks the depth by one, and clears the emptiness hint.
    pub fn end_indent(&mut self)
        ensures
            old(self).pretty is None ==> *final(self) == *old(self),
            old(self).pretty matches Some((c, p)) ==> {
                &&& final(self).pretty == Some(
                    (c, Pretty { indent: spec_sat_dec(p.indent), sequence_index: p.sequence_index }),
                )
                &&& final(self).output@ == old(self).output@ + (if p.indent <= c.depth_limit
                    && old(self).is_empty != Some(true) {
                    spec_repeat(c.indentor@, spec_sat_dec(p.indent) as nat)
                } else {
                    Seq::<char>::empty()
                })
                &&& final(self).is_empty is None
                &&& final(self).newtype_variant == old(self).newtype_variant
            },
    {
        let is_empty = match self.is_empty {
            Some(b) => b,
            None => false,
        };
        let in_pretty = self.pretty.is_some();
        let mut job: Option<(usize, String)> = None;
        if let Some((config, pretty)) = &self.pretty {
            if pretty.indent <= config.depth_limit && !is_empty {
                let n = if pretty.indent == 0 {
                    0
                } else {
                    pretty.indent - 1
                };
                job = Some((n, config.indentor.clone()));
            }
        }
        if let Some((n, ind)) = job {
            let mut i: usize = 0;
            while i < n
                invariant
                    i <= n,
                    self.pretty == old(self).pretty,
                    self.is_empty == old(self).is_empty,
                    self.newtype_variant == old(self).newtype_variant,
                    self.output@ == old(self).output@ + spec_repeat(ind@, i as nat),
                decreases n - i,
            {
                push_str_chars(&mut self.output, ind.as_str());
                i += 1;
            }
        }
        if let Some((_, pretty)) = &mut self.pretty {
            if pretty.indent > 0 {
                pretty.indent = pretty.indent - 1;
            }
        }
        if in_pretty {
            self.is_empty = None;
        }
    }

    /// Writes `value` double-quoted, each character debug-escaped.
    pub fn serialize_escaped_str(&mut self, value: &str)
        ensures
            spec_same_state(*old(self), *final(self)),
            final(self).output@ == old(self).output@ + seq!['"'] + spec_esc_str(value@) + seq!['"'],
    {
        self.output.push('"');
        let n = value.unicode_len();
        let mut i: usize = 0;
        while i < n
            invariant
                i <= n,
                n == value@.len(),
                self.pretty == old(self).pretty,
                self.is_empty == old(self).is_empty,
                self.newtype_variant == old(self).newtype_variant,
                self.output@ == old(self).output@ + seq!['"'] + spec_esc_str(value@.take(i as int)),
            decreases n - i,
        {
            let esc = escape_debug_char(value.get_char(i));
            push_str_chars(&mut self.output, esc.as_str());
            proof {
                assert(value@.take(i + 1 as int).drop_last() =~= value@.take(i as int));
                assert(value@.take(i + 1 as int).last() == value@[i as int]);
                assert(self.output@ =~= old(self).output@ + seq!['"'] + spec_esc_str(
                    value@.take(i + 1 as int),
                ));
            }
            i += 1;
        }
        self.output.push('"');
        proof {
            assert(value@.take(n as int) =~= value@);
            assert(final(self).output@ =~= old(self).output@ + seq!['"'] + spec_esc_str(value@)
                + seq!['"']);
        }
    }

    /// Writes the decimal spelling of a signed integer.
    pub fn serialize_sint(&mut self, value: i64)
        ensures
            spec_same_state(*old(self), *final(self)),
            final(self).output@ == old(self).output@ + spec_dec_str_signed(value as int),
    {
        fmt_i64_into(value, &mut self.output);
    }

    /// Writes the decimal spelling of an unsigned integer.
    pub fn serialize_uint(&mut self, value: u64)
        ensures
            spec_same_state(*old(self), *final(self)),
            final(self).output@ == old(self).output@ + spec_dec_str(value as nat),
    {
        fmt_u64_into(value, &mut self.output);
    }

    /// Writes `name` bare when it fits the identifier grammar, else with the
    /// reserved `r#` prefix.
    pub fn write_identifier(&mut self, name: &str)
        ensures
            spec_same_state(*old(self), *final(self)),
            final(self).output@ == old(self).output@ + spec_ident_out(name@),
    {
        let n = name.unicode_len();
        let mut ok = n > 0 && is_ident_first_char(name.get_char(0));
        let mut i: usize = 1;
        while ok && i < n
            invariant
                1 <= i <= n || (i == 1 && n == 0),
                n == name@.len(),
                ok == (n > 0 && spec_is_ident_first_char(name@[0]) && forall|j: int|
                    0 < j < i ==> spec_is_ident_other_char(#[trigger] name@[j])),
            decreases n - i,
        {
            if !is_ident_other_char(name.get_char(i)) {
                ok = false;
            }
            i += 1;
        }
        proof {
            assert(ok == spec_is_ident(name@));
        }
        if !ok {
            push_str_chars(&mut self.output, "r#");
            proof {
                reveal_strlit("r#");
                assert(self.output@ =~= old(self).output@ + seq!['r', '#']);
            }
        }
        push_str_chars(&mut self.output, name);
        proof {
            assert(final(self).output@ =~= old(self).output@ + spec_ident_out(name@));
        }
    }

    pub fn serialize_bool(&mut self, v: bool)
        ensures
            spec_same_state(*old(self), *final(self)),
            final(self).output@ == old(self).output@ + spec_can(Item::Bool(v), false),
    {
        if v {
            push_str_chars(&mut self.output, "true");
            proof {
                reveal_strlit("true");
                assert(final(self).output@ =~= old(self).output@ + seq!['t', 'r', 'u', 'e']);
            }
        } else {
            push_str_chars(&mut self.output, "false");
            proof {
                reveal_strlit("false");
                assert(final(self).output@ =~= old(self).output@ + seq!['f', 'a', 'l', 's', 'e']);
            }
        }
    }

    pub fn serialize_i8(&mut self, v: i8)
        ensures
            spec_same_state(*old(self), *final(self)),
            final(self).output@ == old(self).output@ + spec_dec_str_signed(v as int),
    {
        self.serialize_sint(v as i64);
    }

    pub fn serialize_i16(&mut self, v: i16)
        ensures
            spec_same_state(*old(self), *final(self)),
            final(self).output@ == old(self).output@ + spec_dec_str_signed(v as int),
    {
        self.serialize_sint(v as i64);
    }

    pub fn serialize_i32(&mut self, v: i32)
        ensures
            spec_same_state(*old(self), *final(self)),
            final(self).output@ == old(self).output@ + spec_dec_str_signed(v as int),
    {
        self.serialize_sint(v as i64);
    }

    pub fn serialize_i64(&mut self, v: i64)
        ensures
            spec_same_state(*old(self), *final(self)),
            final(self).output@ == old(self).output@ + spec_dec_str_signed(v as int),
    {
        self.serialize_sint(v);
    }

    pub fn serialize_u8(&mut self, v: u8)
        ensures
            spec_same_state(*old(self), *final(self)),
            final(self).output@ == old(self).output@ + spec_dec_str(v as nat),
    {
        self.serialize_uint(v as u64);
    }

    pub fn serialize_u16(&mut self, v: u16)
        ensures
            spec_same_state(*old(self), *final(self)),
            final(self).output@ == old(self).output@ + spec_dec_str(v as nat),
    {
        self.serialize_uint(v as u64);
    }

    pub fn serialize_u32(&mut self, v: u32)
        ensures
            spec_same_state(*old(self), *final(self)),
            final(self).output@ == old(self).output@ + spec_dec_str(v as nat),
    {
        self.serialize_uint(v as u64);
    }

    pub fn serialize_u64(&mut self, v: u64)
        ensures
            spec_same_state(*old(self), *final(self)),
            final(self).output@ == old(self).output@ + spec_dec_str(v as nat),
    {
        self.serialize_uint(v);
    }

    /// Writes the decimal text of the binary32 with bits `v`, plus the
    /// trailing `.0` when decimal-float forcing asks for it. For a non-NaN
    /// value the text parses back to the same bits.
    pub fn serialize_f32(&mut self, v: u32)
        ensures
            spec_same_state(*old(self), *final(self)),
            final(self).output@ == old(self).output@ + f32_dec_of(v) + spec_float_suffix(
                f32_dec_of(v),
                old(self).spec_decimal_floats(),
            ),
            !crate::value::spec_f32_is_nan(v) ==> crate::outside::f32_bits_of_dec(f32_dec_of(v))
                == v,
    {
        let txt = fmt_f32_bits(v);
        push_str_chars(&mut self.output, txt.as_str());
        if self.decimal_floats() && is_integral_text(txt.as_str()) {
            push_str_chars(&mut self.output, ".0");
            proof {
                reveal_strlit(".0");
                assert(final(self).output@ =~= old(self).output@ + f32_dec_of(v) + seq!['.', '0']);
            }
        }
    }

    /// Writes the decimal text of the binary64 with bits `v`, plus the
    /// trailing `.0` when decimal-float forcing asks for it. For a non-NaN
    /// value the text parses back to the same bits.
    pub fn serialize_f64(&mut self, v: u64)
        ensures
            spec_same_state(*old(self), *final(self)),
            final(self).output@ == old(self).output@ + f64_dec_of(v) + spec_float_suffix(
                f64_dec_of(v),
                old(self).spec_decimal_floats(),
            ),
            !crate::value::spec_f64_is_nan(v) ==> crate::outside::f64_bits_of_dec(f64_dec_of(v))
                == v,
    {
        let txt = fmt_f64_bits(v);
        push_str_chars(&mut self.output, txt.as_str());
        if self.decimal_floats() && is_integral_text(txt.as_str()) {
            push_str_chars(&mut self.output, ".0");
            proof {
                reveal_strlit(".0");
                assert(final(self).output@ =~= old(self).output@ + f64_dec_of(v) + seq!['.', '0']);
            }
        }
    }

    /// Writes `v` single-quoted, escaping only the quote and the backslash.
    pub fn serialize_char(&mut self, v: char)
        ensures
            spec_same_state(*old(self), *final(self)),
            final(self).output@ == old(self).output@ + seq!['\''] + spec_esc_char(v) + seq!['\''],
    {
        self.output.push('\'');
        if v == '\\' || v == '\'' {
            self.output.push('\\');
        }
        self.output.push(v);
        self.output.push('\'');
        proof {
            assert(final(self).output@ =~= old(self).output@ + seq!['\''] + spec_esc_char(v) + seq![
                '\'',
            ]);
        }
    }

    pub fn serialize_str(&mut self, v: &str)
        ensures
            spec_same_state(*old(self), *final(self)),
            final(self).output@ == old(self).output@ + seq!['"'] + spec_esc_str(v@) + seq!['"'],
    {
        self.serialize_escaped_str(v);
    }

    /// Writes the standard base64 text of `v`, quoted as a string; decoding
    /// that text yields `v` back.
    pub fn serialize_bytes(&mut self, v: &Vec<u8>)
        ensures
            spec_same_state(*old(self), *final(self)),
            final(self).output@ == old(self).output@ + seq!['"'] + spec_esc_str(b64_of(v@)) + seq![
                '"',
            ],
            crate::outside::b64_bytes_of(b64_of(v@)) == v@,
    {
        let b = b64_encode(v);
        self.serialize_str(b.as_str());
    }

    pub fn serialize_none(&mut self)
        ensures
            spec_same_state(*old(self), *final(self)),
            final(self).output@ == old(self).output@ + seq!['N', 'o', 'n', 'e'],
    {
        push_str_chars(&mut self.output, "None");
        proof {
            reveal_strlit("None");
            assert(final(self).output@ =~= old(self).output@ + seq!['N', 'o', 'n', 'e']);
        }
    }

    /// Writes `()`, except as the payload of a newtype variant, where the
    /// wrapper's own parentheses already stand; consumes that flag.
    pub fn serialize_unit(&mut self)
        ensures
            final(self).pretty == old(self).pretty,
            final(self).is_empty == old(self).is_empty,
            !final(self).newtype_variant,
            final(self).output@ == old(self).output@ + (if old(self).newtype_variant {
                Seq::<char>::empty()
            } else {
                seq!['(', ')']
            }),
    {
        if !self.newtype_variant {
            push_str_chars(&mut self.output, "()");
            proof {
                reveal_strlit("()");
                assert(self.output@ =~= old(self).output@ + seq!['(', ')']);
            }
        }
        self.newtype_variant = false;
    }

    /// Writes the struct's name when name emission is on, else a unit.
    pub fn serialize_unit_struct(&mut self, name: &str)
        ensures
            final(self).pretty == old(self).pretty,
            final(self).is_empty == old(self).is_empty,
            old(self).spec_struct_names() && !old(self).newtype_variant ==> {
                &&& final(self).output@ == old(self).output@ + spec_ident_out(name@)
                &&& final(self).newtype_variant == old(self).newtype_variant
            },
            !(old(self).spec_struct_names() && !old(self).newtype_variant) ==> {
                &&& final(self).output@ == old(self).output@ + (if old(self).newtype_variant {
                    Seq::<char>::empty()
                } else {
                    seq!['(', ')']
                })
                &&& !final(self).newtype_variant
            },
    {
        if self.struct_names() && !self.newtype_variant {
            self.write_identifier(name);
        } else {
            self.serialize_unit();
        }
    }

    /// Writes a unit variant: its identifier alone.
    pub fn serialize_unit_variant(&mut self, variant: &str)
        ensures
            spec_same_state(*old(self), *final(self)),
            final(self).output@ == old(self).output@ + spec_ident_out(variant@),
    {
        self.write_identifier(variant);
    }
}

/// Whether a compound has received its first element yet.
pub enum State {
    First,
    Rest,
}

/// The in-progress serialization of one compound value: whether an element
/// has been written yet, and the saved newtype-variant flag that decides
/// whether the closing delimiter is suppressed.
pub struct Compound {
    pub state: State,
    pub newtype_variant: bool,
}

impl Serializer {
    /// Opens a sequence: `[`, the emptiness hint, indentation, a fresh
    /// element counter.
    pub fn serialize_seq(&mut self, len: Option<usize>) -> (c: Compound)
        ensures
            final(self).spec_config() == old(self).spec_config(),
            !final(self).newtype_variant,
            c.state is First,
            !c.newtype_variant,
            old(self).output@.is_prefix_of(final(self).output@),
            final(self).output@ == old(self).output@ + seq!['['] + (if old(
                self,
            ).spec_compact_arrays() {
                Seq::<char>::empty()
            } else {
                spec_start_break(*old(self), spec_emp_after(len, old(self).is_empty))
            }),
            final(self).is_empty == spec_emp_after(len, old(self).is_empty),
    {
        self.newtype_variant = false;
        self.output.push('[');
        if let Some(len) = len {
            self.is_empty = Some(len == 0);
        }
        if !self.compact_arrays() {
            self.start_indent();
        }
        if let Some((_, pretty)) = &mut self.pretty {
            pretty.sequence_index.push(0);
        }
        Compound { state: State::First, newtype_variant: false }
    }

    /// Opens a tuple: `(` unless this tuple is itself a newtype payload,
    /// whose parentheses it reuses; the saved flag decides the close.
    pub fn serialize_tuple(&mut self, len: usize) -> (c: Compound)
        ensures
            final(self).spec_config() == old(self).spec_config(),
            !final(self).newtype_variant,
            c.state is First,
            c.newtype_variant == old(self).newtype_variant,
            old(self).output@.is_prefix_of(final(self).output@),
            final(self).output@ == old(self).output@ + (if old(self).newtype_variant {
                Seq::<char>::empty()
            } else {
                seq!['(']
            }) + (if old(self).spec_separate_tuple_members() {
                spec_start_break(*old(self), Some(len == 0))
            } else {
                Seq::<char>::empty()
            }),
            final(self).is_empty == (if old(self).spec_separate_tuple_members() {
                Some(len == 0)
            } else {
                old(self).is_empty
            }),
    {
        let old_newtype_variant = self.newtype_variant;
        self.newtype_variant = false;
        if !old_newtype_variant {
            self.output.push('(');
        }
        if self.separate_tuple_members() {
            self.is_empty = Some(len == 0);
            self.start_indent();
        }
        proof {
            assert(final(self).output@ =~= old(self).output@ + (if old(self).newtype_variant {
                Seq::<char>::empty()
            } else {
                seq!['(']
            }) + (if old(self).spec_separate_tuple_members() {
                spec_start_break(*old(self), Some(len == 0))
            } else {
                Seq::<char>::empty()
            }));
        }
        Compound { state: State::First, newtype_variant: old_newtype_variant }
    }

    /// Opens a tuple struct: the name when name emission is on, then as a
    /// tuple.
    pub fn serialize_tuple_struct(&mut self, name: &str, len: usize) -> (c: Compound)
        ensures
            final(self).spec_config() == old(self).spec_config(),
            !final(self).newtype_variant,
            c.state is First,
            c.newtype_variant == old(self).newtype_variant,
            old(self).output@.is_prefix_of(final(self).output@),
            final(self).output@ == old(self).output@ + (if old(self).spec_struct_names() && !old(
                self,
            ).newtype_variant {
                spec_ident_out(name@)
            } else {
                Seq::<char>::empty()
            }) + (if old(self).newtype_variant {
                Seq::<char>::empty()
            } else {
                seq!['(']
            }) + (if old(self).spec_separate_tuple_members() {
                spec_start_break(*old(self), Some(len == 0))
            } else {
                Seq::<char>::empty()
            }),
            final(self).is_empty == (if old(self).spec_separate_tuple_members() {
                Some(len == 0)
            } else {
                old(self).is_empty
            }),
    {
        if self.struct_names() && !self.newtype_variant {
            self.write_identifier(name);
        }
        let c = self.serialize_tuple(len);
        proof {
            assert(final(self).output@ =~= old(self).output@ + (if old(self).spec_struct_names()
                && !old(self).newtype_variant {
                spec_ident_out(name@)
            } else {
                Seq::<char>::empty()
            }) + (if old(self).newtype_variant {
                Seq::<char>::empty()
            } else {
                seq!['(']
            }) + (if old(self).spec_separate_tuple_members() {
                spec_start_break(*old(self), Some(len == 0))
            } else {
                Seq::<char>::empty()
            }));
        }
        c
    }

    /// Opens a tuple variant: the variant's identifier, then `(`.
    pub fn serialize_tuple_variant(&mut self, variant: &str, len: usize) -> (c: Compound)
        ensures
            final(self).spec_config() == old(self).spec_config(),
            !final(self).newtype_variant,
            c.state is First,
            !c.newtype_variant,
            old(self).output@.is_prefix_of(final(self).output@),
            final(self).output@ == old(self).output@ + spec_ident_out(variant@) + seq!['('] + (
            if old(self).spec_separate_tuple_members() {
                spec_start_break(*old(self), Some(len == 0))
            } else {
                Seq::<char>::empty()
            }),
            final(self).is_empty == (if old(self).spec_separate_tuple_members() {
                Some(len == 0)
            } else {
                old(self).is_empty
            }),
    {
        self.newtype_variant = false;
        self.write_identifier(variant);
        self.output.push('(');
        if self.separate_tuple_members() {
            self.is_empty = Some(len == 0);
            self.start_indent();
        }
        proof {
            assert(final(self).output@ =~= old(self).output@ + spec_ident_out(variant@) + seq![
                '(',
            ] + (if old(self).spec_separate_tuple_members() {
                spec_start_break(*old(self), Some(len == 0))
            } else {
                Seq::<char>::empty()
            }));
        }
        Compound { state: State::First, newtype_variant: false }
    }

    /// Opens a map: `{`, the emptiness hint, indentation.
    pub fn serialize_map(&mut self, len: Option<usize>) -> (c: Compound)
        ensures
            final(self).spec_config() == old(self).spec_config(),
            !final(self).newtype_variant,
            c.state is First,
            !c.newtype_variant,
            old(self).output@.is_prefix_of(final(self).output@),
            final(self).output@ == old(self).output@ + seq!['{'] + spec_start_break(
                *old(self),
                spec_emp_after(len, old(self).is_empty),
            ),
            final(self).is_empty == spec_emp_after(len, old(self).is_empty),
    {
        self.newtype_variant = false;
        self.output.push('{');
        if let Some(len) = len {
            self.is_empty = Some(len == 0);
        }
        self.start_indent();
        proof {
            assert(final(self).output@ =~= old(self).output@ + seq!['{'] + spec_start_break(
                *old(self),
                spec_emp_after(len, old(self).is_empty),
            ));
        }
        Compound { state: State::First, newtype_variant: false }
    }

    /// Opens a struct body: the name when name emission is on and `{`,
    /// both suppressed when this struct is itself a newtype payload.
    pub fn serialize_struct(&mut self, name: &str, len: usize) -> (c: Compound)
        ensures
            final(self).spec_config() == old(self).spec_config(),
            !final(self).newtype_variant,
            c.state is First,
            c.newtype_variant == old(self).newtype_variant,
            old(self).output@.is_prefix_of(final(self).output@),
            final(self).output@ == old(self).output@ + (if old(self).newtype_variant {
                Seq::<char>::empty()
            } else {
                (if old(self).spec_struct_names() {
                    spec_ident_out(name@)
                } else {
                    Seq::<char>::empty()
                }) + seq!['{']
            }) + spec_start_break(*old(self), Some(len == 0)),
            final(self).is_empty == Some(len == 0),
    {
        let old_newtype_variant = self.newtype_variant;
        self.newtype_variant = false;
        if !old_newtype_variant {
            if self.struct_names() {
                self.write_identifier(name);
            }
            self.output.push('{');
        }
        self.is_empty = Some(len == 0);
        self.start_indent();
        proof {
            assert(final(self).output@ =~= old(self).output@ + (if old(self).newtype_variant {
                Seq::<char>::empty()
            } else {
                (if old(self).spec_struct_names() {
                    spec_ident_out(name@)
                } else {
                    Seq::<char>::empty()
                }) + seq!['{']
            }) + spec_start_break(*old(self), Some(len == 0)));
        }
        Compound { state: State::First, newtype_variant: old_newtype_variant }
    }

    /// Opens a struct variant: the variant's identifier, then `{`.
    pub fn serialize_struct_variant(&mut self, variant: &str, len: usize) -> (c: Compound)
        ensures
            final(self).spec_config() == old(self).spec_config(),
            !final(self).newtype_variant,
            c.state is First,
            !c.newtype_variant,
            old(self).output@.is_prefix_of(final(self).output@),
            final(self).output@ == old(self).output@ + spec_ident_out(variant@) + seq!['{']
                + spec_start_break(*old(self), Some(len == 0)),
            final(self).is_empty == Some(len == 0),
    {
        self.newtype_variant = false;
        self.write_identifier(variant);
        self.output.push('{');
        self.is_empty = Some(len == 0);
        self.start_indent();
        proof {
            assert(final(self).output@ =~= old(self).output@ + spec_ident_out(variant@) + seq![
                '{',
            ] + spec_start_break(*old(self), Some(len == 0)));
        }
        Compound { state: State::First, newtype_variant: false }
    }
}

impl Compound {
    /// Writes the separator owed before any element after the first: a
    /// comma, then in pretty mode a line break (or the separator text when
    /// the depth limit is exceeded or the compound stays compact).
    fn element_separator(&mut self, ser: &mut Serializer, compact_kind: bool)
        ensures
            final(ser).pretty == old(ser).pretty,
            final(ser).spec_config() == old(ser).spec_config(),
            final(ser).is_empty == old(ser).is_empty,
            final(ser).newtype_variant == old(ser).newtype_variant,
            final(self).newtype_variant == old(self).newtype_variant,
            final(self).state is Rest,
            old(ser).output@.is_prefix_of(final(ser).output@),
            final(ser).output@ == old(ser).output@ + spec_elem_sep(
                *old(ser),
                old(self).state is First,
                compact_kind,
            ),
    {
        let first = matches!(self.state, State::First);
        if first {
            self.state = State::Rest;
        } else {
            ser.output.push(',');
            let mut sep: Option<String> = None;
            if let Some((config, pretty)) = &ser.pretty {
                if pretty.indent <= config.depth_limit && !compact_kind {
                    sep = Some(config.new_line.clone());
                } else {
                    sep = Some(config.separator.clone());
                }
            }
            if let Some(sep) = sep {
                push_str_chars(&mut ser.output, sep.as_str());
            }
        }
    }
}

impl Compound {
    /// Writes one sequence element: separator, indentation, the optional
    /// index annotation, then the element itself.
    pub fn serialize_element(&mut self, ser: &mut Serializer, value: &Item)
        requires
            !old(ser).newtype_variant,
        ensures
            final(ser).spec_config() == old(ser).spec_config(),
            !final(ser).newtype_variant,
            final(self).newtype_variant == old(self).newtype_variant,
            final(self).state is Rest,
            old(ser).output@.is_prefix_of(final(ser).output@),
            old(ser).is_compact() ==> final(ser).output@ == old(ser).output@ + (if old(self).state is First {
                Seq::<char>::empty()
            } else {
                seq![',']
            }) + spec_can(*value, false),
            (old(ser).output@ + spec_elem_sep(
                *old(ser),
                old(self).state is First,
                old(ser).spec_compact_arrays(),
            ) + (if old(ser).spec_compact_arrays() {
                Seq::<char>::empty()
            } else {
                spec_indent_text(*old(ser))
            }) + spec_annotation_text(*old(ser))).is_prefix_of(final(ser).output@),
        decreases *value, 3int,
    {
        let ghost pre = old(ser).output@ + spec_elem_sep(
            *old(ser),
            old(self).state is First,
            old(ser).spec_compact_arrays(),
        ) + (if old(ser).spec_compact_arrays() {
            Seq::<char>::empty()
        } else {
            spec_indent_text(*old(ser))
        }) + spec_annotation_text(*old(ser));
        let ca = ser.compact_arrays();
        self.element_separator(ser, ca);
        if !ser.compact_arrays() {
            ser.indent();
        }
        let mut note: Option<u64> = None;
        if let Some((config, pretty)) = &mut ser.pretty {
            if pretty.indent <= config.depth_limit && config.enumerate_arrays
                && pretty.sequence_index.len() > 0 {
                let idx = match pretty.sequence_index.pop() {
                    Some(i) => i,
                    None => 0,
                };
                note = Some(idx as u64);
                let bumped = if idx < usize::MAX {
                    idx + 1
                } else {
                    idx
                };
                pretty.sequence_index.push(bumped);
            }
        }
        if let Some(idx) = note {
            push_str_chars(&mut ser.output, "/*[");
            fmt_u64_into(idx, &mut ser.output);
            push_str_chars(&mut ser.output, "]*/ ");
            proof {
                reveal_strlit("/*[");
                reveal_strlit("]*/ ");
            }
        }
        proof {
            assert(ser.output@ =~= pre);
        }
        serialize_item(ser, value);
        proof {
            assert(pre.is_prefix_of(ser.output@));
        }
    }

    /// Writes one tuple member: separator, optional own line, the member.
    pub fn serialize_tuple_element(&mut self, ser: &mut Serializer, value: &Item)
        requires
            !old(ser).newtype_variant,
        ensures
            final(ser).spec_config() == old(ser).spec_config(),
            !final(ser).newtype_variant,
            final(self).newtype_variant == old(self).newtype_variant,
            final(self).state is Rest,
            old(ser).output@.is_prefix_of(final(ser).output@),
            old(ser).is_compact() ==> final(ser).output@ == old(ser).output@ + (if old(self).state is First {
                Seq::<char>::empty()
            } else {
                seq![',']
            }) + spec_can(*value, false),
            (old(ser).output@ + spec_elem_sep(
                *old(ser),
                old(self).state is First,
                !old(ser).spec_separate_tuple_members(),
            ) + (if old(ser).spec_separate_tuple_members() {
                spec_indent_text(*old(ser))
            } else {
                Seq::<char>::empty()
            })).is_prefix_of(final(ser).output@),
        decreases *value, 3int,
    {
        let ghost pre = old(ser).output@ + spec_elem_sep(
            *old(ser),
            old(self).state is First,
            !old(ser).spec_separate_tuple_members(),
        ) + (if old(ser).spec_separate_tuple_members() {
            spec_indent_text(*old(ser))
        } else {
            Seq::<char>::empty()
        });
        let stm = ser.separate_tuple_members();
        self.element_separator(ser, !stm);
        if ser.separate_tuple_members() {
            ser.indent();
        }
        proof {
            assert(ser.output@ =~= pre);
        }
        serialize_item(ser, value);
        proof {
            assert(pre.is_prefix_of(ser.output@));
        }
    }

    /// Writes one map key: separator, indentation, the key itself.
    pub fn serialize_key(&mut self, ser: &mut Serializer, key: &Item)
        requires
            !old(ser).newtype_variant,
        ensures
            final(ser).spec_config() == old(ser).spec_config(),
            !final(ser).newtype_variant,
            final(self).newtype_variant == old(self).newtype_variant,
            final(self).state is Rest,
            old(ser).output@.is_prefix_of(final(ser).output@),
            old(ser).is_compact() ==> final(ser).output@ == old(ser).output@ + (if old(self).state is First {
                Seq::<char>::empty()
            } else {
                seq![',']
            }) + spec_can(*key, false),
            (old(ser).output@ + spec_elem_sep(*old(ser), old(self).state is First, false)
                + spec_indent_text(*old(ser))).is_prefix_of(final(ser).output@),
        decreases *key, 3int,
    {
        let ghost pre = old(ser).output@ + spec_elem_sep(
            *old(ser),
            old(self).state is First,
            false,
        ) + spec_indent_text(*old(ser));
        self.element_separator(ser, false);
        ser.indent();
        proof {
            assert(ser.output@ =~= pre);
        }
        serialize_item(ser, key);
        proof {
            assert(pre.is_prefix_of(ser.output@));
        }
    }

    /// Writes one map value: the colon, the separator text, the value.
    pub fn serialize_value(&mut self, ser: &mut Serializer, value: &Item)
        requires
            !old(ser).newtype_variant,
        ensures
            final(ser).spec_config() == old(ser).spec_config(),
            !final(ser).newtype_variant,
            *final(self) == *old(self),
            old(ser).output@.is_prefix_of(final(ser).output@),
            old(ser).is_compact() ==> final(ser).output@ == old(ser).output@ + seq![':']
                + spec_can(*value, false),
            (old(ser).output@ + seq![':'] + (match old(ser).pretty {
                Some((c, _)) => c.separator@,
                None => Seq::<char>::empty(),
            })).is_prefix_of(final(ser).output@),
        decreases *value, 3int,
    {
        let ghost pre = old(ser).output@ + seq![':'] + (match old(ser).pretty {
            Some((c, _)) => c.separator@,
            None => Seq::<char>::empty(),
        });
        ser.output.push(':');
        let mut sep: Option<String> = None;
        if let Some((config, _)) = &ser.pretty {
            sep = Some(config.separator.clone());
        }
        if let Some(sep) = sep {
            push_str_chars(&mut ser.output, sep.as_str());
        }
        proof {
            assert(ser.output@ =~= pre);
        }
        serialize_item(ser, value);
        proof {
            assert(pre.is_prefix_of(ser.output@));
        }
    }

    /// Writes one struct field: separator, indentation, the field's
    /// identifier, the colon, the value.
    pub fn serialize_field(&mut self, ser: &mut Serializer, key: &str, value: &Item)
        requires
            !old(ser).newtype_variant,
        ensures
            final(ser).spec_config() == old(ser).spec_config(),
            !final(ser).newtype_variant,
            final(self).newtype_variant == old(self).newtype_variant,
            final(self).state is Rest,
            old(ser).output@.is_prefix_of(final(ser).output@),
            old(ser).is_compact() ==> final(ser).output@ == old(ser).output@ + (if old(self).state is First {
                Seq::<char>::empty()
            } else {
                seq![',']
            }) + spec_ident_out(key@) + seq![':'] + spec_can(*value, false),
            (old(ser).output@ + spec_elem_sep(*old(ser), old(self).state is First, false)
                + spec_indent_text(*old(ser)) + spec_ident_out(key@) + seq![':'] + (match old(
                ser,
            ).pretty {
                Some((c, _)) => c.separator@,
                None => Seq::<char>::empty(),
            })).is_prefix_of(final(ser).output@),
        decreases *value, 3int,
    {
        let ghost pre = old(ser).output@ + spec_elem_sep(
            *old(ser),
            old(self).state is First,
            false,
        ) + spec_indent_text(*old(ser)) + spec_ident_out(key@) + seq![':'] + (match old(
            ser,
        ).pretty {
            Some((c, _)) => c.separator@,
            None => Seq::<char>::empty(),
        });
        self.element_separator(ser, false);
        ser.indent();
        ser.write_identifier(key);
        ser.output.push(':');
        let mut sep: Option<String> = None;
        if let Some((config, _)) = &ser.pretty {
            sep = Some(config.separator.clone());
        }
        if let Some(sep) = sep {
            push_str_chars(&mut ser.output, sep.as_str());
        }
        proof {
            assert(ser.output@ =~= pre);
        }
        serialize_item(ser, value);
        proof {
            assert(pre.is_prefix_of(ser.output@));
        }
    }

    /// The trailing comma and line break owed in pretty mode before a
    /// closing delimiter, when any element was written.
    fn trailing(&self, ser: &mut Serializer, want: bool)
        ensures
            final(ser).pretty == old(ser).pretty,
            final(ser).spec_config() == old(ser).spec_config(),
            final(ser).is_empty == old(ser).is_empty,
            final(ser).newtype_variant == old(ser).newtype_variant,
            old(ser).output@.is_prefix_of(final(ser).output@),
            final(ser).output@ == old(ser).output@ + spec_trailing_text(
                *old(ser),
                self.state is Rest,
                want,
            ),
    {
        let mut tail: Option<String> = None;
        if matches!(self.state, State::Rest) && want {
            if let Some((config, pretty)) = &ser.pretty {
                if pretty.indent <= config.depth_limit {
                    tail = Some(config.new_line.clone());
                }
            }
        }
        if let Some(nl) = tail {
            ser.output.push(',');
            push_str_chars(&mut ser.output, nl.as_str());
        }
    }

    /// Closes a sequence: the pretty trailing comma, un-indentation, the
    /// element counter discarded, then `]`.
    pub fn end(self, ser: &mut Serializer)
        ensures
            final(ser).spec_config() == old(ser).spec_config(),
            final(ser).newtype_variant == old(ser).newtype_variant,
            old(ser).output@.is_prefix_of(final(ser).output@),
            final(ser).output@ == old(ser).output@ + spec_trailing_text(
                *old(ser),
                self.state is Rest,
                !old(ser).spec_compact_arrays(),
            ) + (if old(ser).spec_compact_arrays() {
                Seq::<char>::empty()
            } else {
                spec_close_indent(*old(ser))
            }) + seq![']'],
            final(ser).is_empty == (if old(ser).pretty is Some && !old(ser).spec_compact_arrays() {
                None
            } else {
                old(ser).is_empty
            }),
    {
        let mut want = false;
        if let Some((config, _)) = &ser.pretty {
            want = !config.compact_arrays;
        }
        self.trailing(ser, want);
        if !ser.compact_arrays() {
            ser.end_indent();
        }
        if let Some((_, pretty)) = &mut ser.pretty {
            if pretty.sequence_index.len() > 0 {
                let _discarded = pretty.sequence_index.pop();
            }
        }
        ser.output.push(']');
    }

    /// Closes a tuple: the pretty trailing comma, un-indentation, and `)`
    /// unless the tuple reused a newtype wrapper's parentheses.
    pub fn end_tuple(self, ser: &mut Serializer)
        ensures
            final(ser).spec_config() == old(ser).spec_config(),
            final(ser).newtype_variant == old(ser).newtype_variant,
            old(ser).output@.is_prefix_of(final(ser).output@),
            final(ser).output@ == old(ser).output@ + spec_trailing_text(
                *old(ser),
                self.state is Rest,
                old(ser).spec_separate_tuple_members(),
            ) + (if old(ser).spec_separate_tuple_members() {
                spec_close_indent(*old(ser))
            } else {
                Seq::<char>::empty()
            }) + (if self.newtype_variant {
                Seq::<char>::empty()
            } else {
                seq![')']
            }),
            final(ser).is_empty == (if old(ser).spec_separate_tuple_members() {
                None
            } else {
                old(ser).is_empty
            }),
    {
        let stm = ser.separate_tuple_members();
        self.trailing(ser, stm);
        if stm {
            ser.end_indent();
        }
        if !self.newtype_variant {
            ser.output.push(')');
        }
    }

    /// Closes a map: the pretty trailing comma, un-indentation, then `}`.
    pub fn end_map(self, ser: &mut Serializer)
        ensures
            final(ser).spec_config() == old(ser).spec_config(),
            final(ser).newtype_variant == old(ser).newtype_variant,
            old(ser).output@.is_prefix_of(final(ser).output@),
            final(ser).output@ == old(ser).output@ + spec_trailing_text(
                *old(ser),
                self.state is Rest,
                true,
            ) + spec_close_indent(*old(ser)) + seq!['}'],
            final(ser).is_empty == (if old(ser).pretty is Some {
                None
            } else {
                old(ser).is_empty
            }),
    {
        self.trailing(ser, true);
        ser.end_indent();
        ser.output.push('}');
        proof {
            assert(final(ser).output@ =~= old(ser).output@ + spec_trailing_text(
                *old(ser),
                self.state is Rest,
                true,
            ) + spec_close_indent(*old(ser)) + seq!['}']);
        }
    }

    /// Closes a struct body: the pretty trailing comma, un-indentation,
    /// and `}` unless the struct reused a newtype wrapper's parentheses.
    pub fn end_struct(self, ser: &mut Serializer)
        ensures
            final(ser).spec_config() == old(ser).spec_config(),
            final(ser).newtype_variant == old(ser).newtype_variant,
            old(ser).output@.is_prefix_of(final(ser).output@),
            final(ser).output@ == old(ser).output@ + spec_trailing_text(
                *old(ser),
                self.state is Rest,
                true,
            ) + spec_close_indent(*old(ser)) + (if self.newtype_variant {
                Seq::<char>::empty()
            } else {
                seq!['}']
            }),
            final(ser).is_empty == (if old(ser).pretty is Some {
                None
            } else {
                old(ser).is_empty
            }),
    {
        self.trailing(ser, true);
        ser.end_indent();
        if !self.newtype_variant {
            ser.output.push('}');
        }
        proof {
            assert(final(ser).output@ =~= old(ser).output@ + spec_trailing_text(
                *old(ser),
                self.state is Rest,
                true,
            ) + spec_close_indent(*old(ser)) + (if self.newtype_variant {
                Seq::<char>::empty()
            } else {
                seq!['}']
            }));
        }
    }
}

proof fn lemma_prefix_trans(a: Seq<char>, b: Seq<char>, c: Seq<char>)
    requires
        a.is_prefix_of(b),
        b.is_prefix_of(c),
    ensures
        a.is_prefix_of(c),
{
    assert(a =~= c.subrange(0, a.len() as int));
}

proof fn lemma_can_list_step(xs: Seq<Item>, i: int)
    requires
        0 <= i < xs.len(),
    ensures
        spec_can_list(xs.take(i + 1)) == spec_can_list(xs.take(i)) + (if i == 0 {
            Seq::<char>::empty()
        } else {
            seq![',']
        }) + spec_can(xs[i], false),
{
    let a = xs.take(i);
    let b = xs.take(i + 1);
    assert(b.drop_last() =~= a);
    assert(b.last() == xs[i]);
    if i == 0 {
        assert(b[0] == xs[0]);
        assert(spec_can_list(b) == spec_can(xs[0], false));
        assert(spec_can_list(a) + Seq::<char>::empty() + spec_can(xs[i], false) =~= spec_can(
            xs[i],
            false,
        ));
    } else {
        assert(spec_can_list(b) == spec_can_list(a) + seq![','] + spec_can(xs[i], false));
    }
}

proof fn lemma_can_entries_step(es: Seq<(Item, Item)>, i: int)
    requires
        0 <= i < es.len(),
    ensures
        spec_can_entries(es.take(i + 1)) == spec_can_entries(es.take(i)) + (if i == 0 {
            Seq::<char>::empty()
        } else {
            seq![',']
        }) + spec_can(es[i].0, false) + seq![':'] + spec_can(es[i].1, false),
{
    let a = es.take(i);
    let b = es.take(i + 1);
    assert(b.drop_last() =~= a);
    assert(b.last() == es[i]);
    if i == 0 {
        assert(spec_can_entries(b) =~= spec_can_entries(a) + Seq::<char>::empty() + spec_can(
            es[i].0,
            false,
        ) + seq![':'] + spec_can(es[i].1, false));
    } else {
        assert(spec_can_entries(b) == spec_can_entries(a) + seq![','] + spec_can(es[i].0, false)
            + seq![':'] + spec_can(es[i].1, false));
    }
}

proof fn lemma_can_fields_step(fs: Seq<(String, Item)>, i: int)
    requires
        0 <= i < fs.len(),
    ensures
        spec_can_fields(fs.take(i + 1)) == spec_can_fields(fs.take(i)) + (if i == 0 {
            Seq::<char>::empty()
        } else {
            seq![',']
        }) + spec_ident_out(fs[i].0@) + seq![':'] + spec_can(fs[i].1, false),
{
    let a = fs.take(i);
    let b = fs.take(i + 1);
    assert(b.drop_last() =~= a);
    assert(b.last() == fs[i]);
    if i == 0 {
        assert(spec_can_fields(b) =~= spec_can_fields(a) + Seq::<char>::empty() + spec_ident_out(
            fs[i].0@,
        ) + seq![':'] + spec_can(fs[i].1, false));
    } else {
        assert(spec_can_fields(b) == spec_can_fields(a) + seq![','] + spec_ident_out(fs[i].0@)
            + seq![':'] + spec_can(fs[i].1, false));
    }
}


#[verifier::loop_isolation(false)]
fn ser_list_items(ser: &mut Serializer, xs: &Vec<Item>)
    ensures
        final(ser).spec_config() == old(ser).spec_config(),
        !old(ser).newtype_variant ==> !final(ser).newtype_variant,
        old(ser).output@.is_prefix_of(final(ser).output@),
        old(ser).is_compact() ==> final(ser).output@ == old(ser).output@ + seq!['['] + spec_can_list(xs@) + seq![']'],
    decreases xs@, 1int,
{
    let n = xs.len();
    let mut comp = ser.serialize_seq(Some(n));
    let ghost out1 = ser.output@;
    let mut i: usize = 0;
    while i < n
        invariant
            i <= n,
            n == xs@.len(),
            ser.spec_config() == old(ser).spec_config(),
            !ser.newtype_variant,
            !comp.newtype_variant,
            (comp.state is First) <==> (i == 0),
            out1.is_prefix_of(ser.output@),
            old(ser).is_compact() ==> ser.output@ == out1 + spec_can_list(xs@.take(i as int)),
        decreases n - i,
    {
        proof {
            assert(decreases_to!(xs@ => xs@[i as int]));
        }
        let ghost pre = ser.output@;
        comp.serialize_element(ser, &xs[i]);
        proof {
            lemma_prefix_trans(out1, pre, ser.output@);
            if old(ser).is_compact() {
                lemma_can_list_step(xs@, i as int);
                assert(ser.output@ =~= out1 + spec_can_list(xs@.take(i + 1 as int)));
            }
        }
        i += 1;
    }
    let ghost pre_end = ser.output@;
    comp.end(ser);
    proof {
        lemma_prefix_trans(out1, pre_end, ser.output@);
        lemma_prefix_trans(old(ser).output@, out1, ser.output@);
        assert(xs@.take(n as int) =~= xs@);
        if old(ser).is_compact() {
            assert(ser.output@ =~= old(ser).output@ + seq!['['] + spec_can_list(xs@) + seq![']']);
        }
    }
}

#[verifier::loop_isolation(false)]
fn ser_tuple_items(ser: &mut Serializer, xs: &Vec<Item>)
    ensures
        final(ser).spec_config() == old(ser).spec_config(),
        !old(ser).newtype_variant ==> !final(ser).newtype_variant,
        old(ser).output@.is_prefix_of(final(ser).output@),
        old(ser).is_compact() ==> final(ser).output@ == old(ser).output@ + (if old(ser).newtype_variant { spec_can_list(xs@) } else { seq!['('] + spec_can_list(xs@) + seq![')'] }),
    decreases xs@, 1int,
{
    let n = xs.len();
    let mut comp = ser.serialize_tuple(n);
    let ghost out1 = ser.output@;
    let mut i: usize = 0;
    while i < n
        invariant
            i <= n,
            n == xs@.len(),
            ser.spec_config() == old(ser).spec_config(),
            !ser.newtype_variant,
            comp.newtype_variant == old(ser).newtype_variant,
            (comp.state is First) <==> (i == 0),
            out1.is_prefix_of(ser.output@),
            old(ser).is_compact() ==> ser.output@ == out1 + spec_can_list(xs@.take(i as int)),
        decreases n - i,
    {
        proof {
            assert(decreases_to!(xs@ => xs@[i as int]));
        }
        let ghost pre = ser.output@;
        comp.serialize_tuple_element(ser, &xs[i]);
        proof {
            lemma_prefix_trans(out1, pre, ser.output@);
            if old(ser).is_compact() {
                lemma_can_list_step(xs@, i as int);
                assert(ser.output@ =~= out1 + spec_can_list(xs@.take(i + 1 as int)));
            }
        }
        i += 1;
    }
    let ghost pre_end = ser.output@;
    comp.end_tuple(ser);
    proof {
        lemma_prefix_trans(out1, pre_end, ser.output@);
        lemma_prefix_trans(old(ser).output@, out1, ser.output@);
        assert(xs@.take(n as int) =~= xs@);
        if old(ser).is_compact() {
            assert(ser.output@ =~= old(ser).output@ + (if old(ser).newtype_variant { spec_can_list(xs@) } else { seq!['('] + spec_can_list(xs@) + seq![')'] }));
        }
    }
}

#[verifier::loop_isolation(false)]
fn ser_tuple_struct_items(ser: &mut Serializer, name: &str, xs: &Vec<Item>)
    ensures
        final(ser).spec_config() == old(ser).spec_config(),
        !old(ser).newtype_variant ==> !final(ser).newtype_variant,
        old(ser).output@.is_prefix_of(final(ser).output@),
        old(ser).is_compact() ==> final(ser).output@ == old(ser).output@ + (if old(ser).newtype_variant { spec_can_list(xs@) } else { seq!['('] + spec_can_list(xs@) + seq![')'] }),
    decreases xs@, 1int,
{
    let n = xs.len();
    let mut comp = ser.serialize_tuple_struct(name, n);
    let ghost out1 = ser.output@;
    let mut i: usize = 0;
    while i < n
        invariant
            i <= n,
            n == xs@.len(),
            ser.spec_config() == old(ser).spec_config(),
            !ser.newtype_variant,
            comp.newtype_variant == old(ser).newtype_variant,
            (comp.state is First) <==> (i == 0),
            out1.is_prefix_of(ser.output@),
            old(ser).is_compact() ==> ser.output@ == out1 + spec_can_list(xs@.take(i as int)),
        decreases n - i,
    {
        proof {
            assert(decreases_to!(xs@ => xs@[i as int]));
        }
        let ghost pre = ser.output@;
        comp.serialize_tuple_element(ser, &xs[i]);
        proof {
            lemma_prefix_trans(out1, pre, ser.output@);
            if old(ser).is_compact() {
                lemma_can_list_step(xs@, i as int);
                assert(ser.output@ =~= out1 + spec_can_list(xs@.take(i + 1 as int)));
            }
        }
        i += 1;
    }
    let ghost pre_end = ser.output@;
    comp.end_tuple(ser);
    proof {
        lemma_prefix_trans(out1, pre_end, ser.output@);
        lemma_prefix_trans(old(ser).output@, out1, ser.output@);
        assert(xs@.take(n as int) =~= xs@);
        if old(ser).is_compact() {
            assert(ser.output@ =~= old(ser).output@ + (if old(ser).newtype_variant { spec_can_list(xs@) } else { seq!['('] + spec_can_list(xs@) + seq![')'] }));
        }
    }
}

#[verifier::loop_isolation(false)]
fn ser_tuple_variant_items(ser: &mut Serializer, variant: &str, xs: &Vec<Item>)
    ensures
        final(ser).spec_config() == old(ser).spec_config(),
        !old(ser).newtype_variant ==> !final(ser).newtype_variant,
        old(ser).output@.is_prefix_of(final(ser).output@),
        old(ser).is_compact() ==> final(ser).output@ == old(ser).output@ + spec_ident_out(variant@) + seq!['('] + spec_can_list(xs@) + seq![')'],
    decreases xs@, 1int,
{
    let n = xs.len();
    let mut comp = ser.serialize_tuple_variant(variant, n);
    let ghost out1 = ser.output@;
    let mut i: usize = 0;
    while i < n
        invariant
            i <= n,
            n == xs@.len(),
            ser.spec_config() == old(ser).spec_config(),
            !ser.newtype_variant,
            !comp.newtype_variant,
            (comp.state is First) <==> (i == 0),
            out1.is_prefix_of(ser.output@),
            old(ser).is_compact() ==> ser.output@ == out1 + spec_can_list(xs@.take(i as int)),
        decreases n - i,
    {
        proof {
            assert(decreases_to!(xs@ => xs@[i as int]));
        }
        let ghost pre = ser.output@;
        comp.serialize_tuple_element(ser, &xs[i]);
        proof {
            lemma_prefix_trans(out1, pre, ser.output@);
            if old(ser).is_compact() {
                lemma_can_list_step(xs@, i as int);
                assert(ser.output@ =~= out1 + spec_can_list(xs@.take(i + 1 as int)));
            }
        }
        i += 1;
    }
    let ghost pre_end = ser.output@;
    comp.end_tuple(ser);
    proof {
        lemma_prefix_trans(out1, pre_end, ser.output@);
        lemma_prefix_trans(old(ser).output@, out1, ser.output@);
        assert(xs@.take(n as int) =~= xs@);
        if old(ser).is_compact() {
            assert(ser.output@ =~= old(ser).output@ + spec_ident_out(variant@) + seq!['('] + spec_can_list(xs@) + seq![')']);
        }
    }
}

#[verifier::loop_isolation(false)]
fn ser_map_entries(ser: &mut Serializer, xs: &Vec<(Item, Item)>)
    ensures
        final(ser).spec_config() == old(ser).spec_config(),
        !old(ser).newtype_variant ==> !final(ser).newtype_variant,
        old(ser).output@.is_prefix_of(final(ser).output@),
        old(ser).is_compact() ==> final(ser).output@ == old(ser).output@ + seq!['{'] + spec_can_entries(xs@) + seq!['}'],
    decreases xs@, 1int,
{
    let n = xs.len();
    let mut comp = ser.serialize_map(Some(n));
    let ghost out1 = ser.output@;
    let mut i: usize = 0;
    while i < n
        invariant
            i <= n,
            n == xs@.len(),
            ser.spec_config() == old(ser).spec_config(),
            !ser.newtype_variant,
            !comp.newtype_variant,
            (comp.state is First) <==> (i == 0),
            out1.is_prefix_of(ser.output@),
            old(ser).is_compact() ==> ser.output@ == out1 + spec_can_entries(xs@.take(i as int)),
        decreases n - i,
    {
        proof {
            assert(decreases_to!(xs@ => xs@[i as int]));
            assert(decreases_to!(xs@[i as int] => xs@[i as int].0));
            assert(decreases_to!(xs@[i as int] => xs@[i as int].1));
        }
        let ghost pre = ser.output@;
        let (k, v) = &xs[i];
        comp.serialize_key(ser, k);
        comp.serialize_value(ser, v);
        proof {
            lemma_prefix_trans(out1, pre, ser.output@);
            if old(ser).is_compact() {
                lemma_can_entries_step(xs@, i as int);
                assert(ser.output@ =~= out1 + spec_can_entries(xs@.take(i + 1 as int)));
            }
        }
        i += 1;
    }
    let ghost pre_end = ser.output@;
    comp.end_map(ser);
    proof {
        lemma_prefix_trans(out1, pre_end, ser.output@);
        lemma_prefix_trans(old(ser).output@, out1, ser.output@);
        assert(xs@.take(n as int) =~= xs@);
        if old(ser).is_compact() {
            assert(ser.output@ =~= old(ser).output@ + seq!['{'] + spec_can_entries(xs@) + seq!['}']);
        }
    }
}

#[verifier::loop_isolation(false)]
fn ser_struct_fields(ser: &mut Serializer, name: &str, xs: &Vec<(String, Item)>)
    ensures
        final(ser).spec_config() == old(ser).spec_config(),
        !old(ser).newtype_variant ==> !final(ser).newtype_variant,
        old(ser).output@.is_prefix_of(final(ser).output@),
        old(ser).is_compact() ==> final(ser).output@ == old(ser).output@ + (if old(ser).newtype_variant { spec_can_fields(xs@) } else { seq!['{'] + spec_can_fields(xs@) + seq!['}'] }),
    decreases xs@, 1int,
{
    let n = xs.len();
    let mut comp = ser.serialize_struct(name, n);
    let ghost out1 = ser.output@;
    let mut i: usize = 0;
    while i < n
        invariant
            i <= n,
            n == xs@.len(),
            ser.spec_config() == old(ser).spec_config(),
            !ser.newtype_variant,
            comp.newtype_variant == old(ser).newtype_variant,
            (comp.state is First) <==> (i == 0),
            out1.is_prefix_of(ser.output@),
            old(ser).is_compact() ==> ser.output@ == out1 + spec_can_fields(xs@.take(i as int)),
        decreases n - i,
    {
        proof {
            assert(decreases_to!(xs@ => xs@[i as int]));
            assert(decreases_to!(xs@[i as int] => xs@[i as int].1));
        }
        let ghost pre = ser.output@;
        let (k, v) = &xs[i];
        comp.serialize_field(ser, k.as_str(), v);
        proof {
            lemma_prefix_trans(out1, pre, ser.output@);
            if old(ser).is_compact() {
                lemma_can_fields_step(xs@, i as int);
                assert(ser.output@ =~= out1 + spec_can_fields(xs@.take(i + 1 as int)));
            }
        }
        i += 1;
    }
    let ghost pre_end = ser.output@;
    comp.end_struct(ser);
    proof {
        lemma_prefix_trans(out1, pre_end, ser.output@);
        lemma_prefix_trans(old(ser).output@, out1, ser.output@);
        assert(xs@.take(n as int) =~= xs@);
        if old(ser).is_compact() {
            assert(ser.output@ =~= old(ser).output@ + (if old(ser).newtype_variant { spec_can_fields(xs@) } else { seq!['{'] + spec_can_fields(xs@) + seq!['}'] }));
        }
    }
}

#[verifier::loop_isolation(false)]
fn ser_struct_variant_fields(ser: &mut Serializer, variant: &str, xs: &Vec<(String, Item)>)
    ensures
        final(ser).spec_config() == old(ser).spec_config(),
        !old(ser).newtype_variant ==> !final(ser).newtype_variant,
        old(ser).output@.is_prefix_of(final(ser).output@),
        old(ser).is_compact() ==> final(ser).output@ == old(ser).output@ + spec_ident_out(variant@) + seq!['{'] + spec_can_fields(xs@) + seq!['}'],
    decreases xs@, 1int,
{
    let n = xs.len();
    let mut comp = ser.serialize_struct_variant(variant, n);
    let ghost out1 = ser.output@;
    let mut i: usize = 0;
    while i < n
        invariant
            i <= n,
            n == xs@.len(),
            ser.spec_config() == old(ser).spec_config(),
            !ser.newtype_variant,
            !comp.newtype_variant,
            (comp.state is First) <==> (i == 0),
            out1.is_prefix_of(ser.output@),
            old(ser).is_compact() ==> ser.output@ == out1 + spec_can_fields(xs@.take(i as int)),
        decreases n - i,
    {
        proof {
            assert(decreases_to!(xs@ => xs@[i as int]));
            assert(decreases_to!(xs@[i as int] => xs@[i as int].1));
        }
        let ghost pre = ser.output@;
        let (k, v) = &xs[i];
        comp.serialize_field(ser, k.as_str(), v);
        proof {
            lemma_prefix_trans(out1, pre, ser.output@);
            if old(ser).is_compact() {
                lemma_can_fields_step(xs@, i as int);
                assert(ser.output@ =~= out1 + spec_can_fields(xs@.take(i + 1 as int)));
            }
        }
        i += 1;
    }
    let ghost pre_end = ser.output@;
    comp.end_struct(ser);
    proof {
        lemma_prefix_trans(out1, pre_end, ser.output@);
        lemma_prefix_trans(old(ser).output@, out1, ser.output@);
        assert(xs@.take(n as int) =~= xs@);
        if old(ser).is_compact() {
            assert(ser.output@ =~= old(ser).output@ + spec_ident_out(variant@) + seq!['{'] + spec_can_fields(xs@) + seq!['}']);
        }
    }
}

/// The items whose text never depends on the pretty machinery: scalars,
/// the bare `None`, units and unit variants. Floats stand apart only for
/// the decimal-float switch.
pub open spec fn spec_is_scalar_item(it: Item) -> bool {
    match it {
        Item::Bool(_) => true,
        Item::Char(_) => true,
        Item::I8(_) => true,
        Item::I16(_) => true,
        Item::I32(_) => true,
        Item::I64(_) => true,
        Item::U8(_) => true,
        Item::U16(_) => true,
        Item::U32(_) => true,
        Item::U64(_) => true,
        Item::Str(_) => true,
        Item::Bytes(_) => true,
        Item::Option(o) => o is None,
        Item::Unit => true,
        Item::UnitVariant(_) => true,
        _ => false,
    }
}

/// Writes one typed value with the writer's current state. In canonical
/// mode the text appended is exactly [`spec_can`] of the value and the
/// newtype-variant flag at entry; a scalar appends that same text in every
/// mode, and a float appends its decimal text plus the configured suffix.
#[verifier::rlimit(60)]
pub fn serialize_item(ser: &mut Serializer, item: &Item)
    ensures
        final(ser).spec_config() == old(ser).spec_config(),
        !old(ser).newtype_variant ==> !final(ser).newtype_variant,
        old(ser).output@.is_prefix_of(final(ser).output@),
        old(ser).is_compact() ==> final(ser).output@ == old(ser).output@ + spec_can(
            *item,
            old(ser).newtype_variant,
        ),
        spec_is_scalar_item(*item) ==> final(ser).output@ == old(ser).output@ + spec_can(
            *item,
            old(ser).newtype_variant,
        ),
        match *item {
            Item::F64(bv) => final(ser).output@ == old(ser).output@ + f64_dec_of(bv)
                + spec_float_suffix(f64_dec_of(bv), old(ser).spec_decimal_floats()),
            Item::F32(bv) => final(ser).output@ == old(ser).output@ + f32_dec_of(bv)
                + spec_float_suffix(f32_dec_of(bv), old(ser).spec_decimal_floats()),
            _ => true,
        },
    decreases *item, 2int,
{
    match item {
        Item::Bool(v) => ser.serialize_bool(*v),
        Item::Char(v) => ser.serialize_char(*v),
        Item::I8(v) => ser.serialize_i8(*v),
        Item::I16(v) => ser.serialize_i16(*v),
        Item::I32(v) => ser.serialize_i32(*v),
        Item::I64(v) => ser.serialize_i64(*v),
        Item::U8(v) => ser.serialize_u8(*v),
        Item::U16(v) => ser.serialize_u16(*v),
        Item::U32(v) => ser.serialize_u32(*v),
        Item::U64(v) => ser.serialize_u64(*v),
        Item::F32(v) => ser.serialize_f32(*v),
        Item::F64(v) => ser.serialize_f64(*v),
        Item::Str(v) => ser.serialize_str(v.as_str()),
        Item::Bytes(v) => ser.serialize_bytes(v),
        Item::Option(None) => ser.serialize_none(),
        Item::Option(Some(x)) => {
            proof {
                assert(decreases_to!(*item => (*item)->Option_0));
                assert(decreases_to!((*item)->Option_0 => ((*item)->Option_0)->0));
            }
            serialize_item(ser, &**x);
        },
        Item::Unit => ser.serialize_unit(),
        Item::UnitStruct(name) => ser.serialize_unit_struct(name.as_str()),
        Item::UnitVariant(v) => ser.serialize_unit_variant(v.as_str()),
        Item::NewtypeStruct(name, x) => {
            proof {
                assert(decreases_to!(*item => (*item)->NewtypeStruct_1));
            }
            ser.newtype_variant = false;
            if ser.struct_names() {
                ser.write_identifier(name.as_str());
            }
            ser.output.push('(');
            let ghost o1 = ser.output@;
            proof {
                assert(old(ser).output@.is_prefix_of(o1)) by {
                    assert(o1.subrange(0, old(ser).output@.len() as int) =~= old(ser).output@);
                }
            }
            serialize_item(ser, &**x);
            let ghost o2 = ser.output@;
            ser.output.push(')');
            proof {
                assert(o2.is_prefix_of(ser.output@)) by {
                    assert(ser.output@.subrange(0, o2.len() as int) =~= o2);
                }
                lemma_prefix_trans(old(ser).output@, o1, o2);
                lemma_prefix_trans(old(ser).output@, o2, ser.output@);
                if old(ser).is_compact() {
                    assert(ser.output@ =~= old(ser).output@ + spec_can(
                        *item,
                        old(ser).newtype_variant,
                    ));
                }
            }
        },
        Item::NewtypeVariant(v, x) => {
            proof {
                assert(decreases_to!(*item => (*item)->NewtypeVariant_1));
            }
            ser.newtype_variant = false;
            ser.write_identifier(v.as_str());
            ser.output.push('(');
            ser.newtype_variant = true;
            let ghost o1 = ser.output@;
            proof {
                assert(old(ser).output@.is_prefix_of(o1)) by {
                    assert(o1.subrange(0, old(ser).output@.len() as int) =~= old(ser).output@);
                }
            }
            serialize_item(ser, &**x);
            let ghost o2 = ser.output@;
            ser.newtype_variant = false;
            ser.output.push(')');
            proof {
                assert(o2.is_prefix_of(ser.output@)) by {
                    assert(ser.output@.subrange(0, o2.len() as int) =~= o2);
                }
                lemma_prefix_trans(old(ser).output@, o1, o2);
                lemma_prefix_trans(old(ser).output@, o2, ser.output@);
                if old(ser).is_compact() {
                    assert(ser.output@ =~= old(ser).output@ + spec_can(
                        *item,
                        old(ser).newtype_variant,
                    ));
                }
            }
        },
        Item::List(xs) => {
            proof {
                assert(decreases_to!(*item => (*item)->List_0));
                assert(decreases_to!((*item)->List_0 => xs@));
            }
            ser_list_items(ser, xs);
        },
        Item::Tuple(xs) => {
            proof {
                assert(decreases_to!(*item => (*item)->Tuple_0));
                assert(decreases_to!((*item)->Tuple_0 => xs@));
            }
            ser_tuple_items(ser, xs);
        },
        Item::TupleStruct(name, xs) => {
            proof {
                assert(decreases_to!(*item => (*item)->TupleStruct_1));
                assert(decreases_to!((*item)->TupleStruct_1 => xs@));
            }
            ser_tuple_struct_items(ser, name.as_str(), xs);
        },
        Item::TupleVariant(v, xs) => {
            proof {
                assert(decreases_to!(*item => (*item)->TupleVariant_1));
                assert(decreases_to!((*item)->TupleVariant_1 => xs@));
            }
            ser_tuple_variant_items(ser, v.as_str(), xs);
        },
        Item::Mapping(es) => {
            proof {
                assert(decreases_to!(*item => (*item)->Mapping_0));
                assert(decreases_to!((*item)->Mapping_0 => es@));
            }
            ser_map_entries(ser, es);
        },
        Item::Struct(name, fs) => {
            proof {
                assert(decreases_to!(*item => (*item)->Struct_1));
                assert(decreases_to!((*item)->Struct_1 => fs@));
            }
            ser_struct_fields(ser, name.as_str(), fs);
        },
        Item::StructVariant(v, fs) => {
            proof {
                assert(decreases_to!(*item => (*item)->StructVariant_1));
                assert(decreases_to!((*item)->StructVariant_1 => fs@));
            }
            ser_struct_variant_fields(ser, v.as_str(), fs);
        },
    }
    proof {
        assert(old(ser).output@.is_prefix_of(ser.output@)) by {
            assert(ser.output@.subrange(0, old(ser).output@.len() as int) =~= old(ser).output@);
        }
    }
}

/// The canonical (compact) text of a typed value: exactly
/// [`spec_can`]`(*value, false)`.
pub fn to_string(value: &Item) -> (r: String)
    ensures
        r@ == spec_can(*value, false),
{
    let mut ser = Serializer::with_options(None);
    serialize_item(&mut ser, value);
    chars_to_string(&ser.output)
}

/// The pretty text of a typed value under `config`: a scalar prints as its
/// canonical text, a float as its decimal text plus the configured suffix;
/// composite layout is governed per option by the exact contracts of the
/// writer's opens, separators and closes.
pub fn to_string_pretty(value: &Item, config: PrettyConfig) -> (r: String)
    ensures
        spec_is_scalar_item(*value) ==> r@ == spec_can(*value, false),
        match *value {
            Item::F64(bv) => r@ == f64_dec_of(bv) + spec_float_suffix(
                f64_dec_of(bv),
                config.decimal_floats,
            ),
            Item::F32(bv) => r@ == f32_dec_of(bv) + spec_float_suffix(
                f32_dec_of(bv),
                config.decimal_floats,
            ),
            _ => true,
        },
{
    let mut ser = Serializer::with_options(Some(config));
    serialize_item(&mut ser, value);
    proof {
        assert(ser.output@ =~= Seq::<char>::empty() + ser.output@);
    }
    chars_to_string(&ser.output)
}

/// The canonical text of a dynamic value: the canonical text of the typed
/// tree it corresponds to.
pub fn value_to_string(v: &Value) -> (r: String)
    ensures
        exists|it: Item| spec_value_item(*v, it) && r@ == spec_can(it, false),
{
    let item = value_to_item(v);
    let out = to_string(&item);
    proof {
        assert(spec_value_item(*v, item) && out@ == spec_can(item, false));
    }
    out
}

/// The pretty text of a dynamic value under `config`: its typed
/// counterpart's pretty text.
pub fn value_to_string_pretty(v: &Value, config: PrettyConfig) -> (r: String)
    ensures
        forall|bv: bool| *v == Value::Bool(bv) ==> r@ == spec_can(Item::Bool(bv), false),
        forall|iv: i64|
            *v == Value::Number(Number::Integer(iv)) ==> r@ == spec_can(Item::I64(iv), false),
        *v == Value::Unit ==> r@ == spec_can(Item::Unit, false),
{
    let item = value_to_item(v);
    to_string_pretty(&item, config)
}

/// Executable [`spec_is_integral_text`].
fn is_integral_text(s: &str) -> (r: bool)
    ensures
        r == spec_is_integral_text(s@),
{
    let n = s.unicode_len();
    if n == 0 {
        return false;
    }
    if s.get_char(0) == '-' && n == 1 {
        return false;
    }
    let mut i: usize = 0;
    while i < n
        invariant
            i <= n,
            n == s@.len(),
            n > 0,
            s@[0] == '-' ==> n > 1,
            forall|j: int|
                0 <= j < i ==> (crate::ident::spec_is_digit(#[trigger] s@[j]) || (j == 0 && s@[j]
                    == '-')),
        decreases n - i,
    {
        let c = s.get_char(i);
        if !(crate::ident::is_digit(c) || (i == 0 && c == '-')) {
            return false;
        }
        i += 1;
    }
    true
}

} // verus!

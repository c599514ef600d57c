//! The schema parser: argument tokens, item lines and whole schemas.
use vstd::prelude::*;
use crate::schema::{
    TypeRef, TypeModel, Argument, ArgModel, SchemaItem, ItemModel, args_view, items_view,
};
use crate::classify::{Declaration, classify, decls_view, declarations};
use crate::text::{
    CharClass, index_of, all_in, camel, number_value, find_byte, all_of_class, dot_to_camel,
    parse_number,
};

verus! {

/// Whether `s[from..to]` is the byte string `lit`.
pub fn range_equals(s: &[u8], from: usize, to: usize, lit: &[u8]) -> (r: bool)
    requires
        from <= to <= s@.len(),
    ensures
        r == (s@.subrange(from as int, to as int) == lit@),
{
    if to - from != lit.len() {
        return false;
    }
    let mut i: usize = 0;
    while i < lit.len()
        invariant
            i <= lit@.len(),
            to - from == lit@.len(),
            from <= to <= s@.len(),
            forall|j: int| 0 <= j < i ==> s@[from + j] == #[trigger] lit@[j],
        decreases lit@.len() - i,
    {
        if s[from + i] != lit[i] {
            assert(s@.subrange(from as int, to as int)[i as int] != lit@[i as int]);
            return false;
        }
        i = i + 1;
    }
    assert(s@.subrange(from as int, to as int) =~= lit@);
    true
}

// The words of the type language, as bytes.
pub open spec fn lit_bool() -> Seq<u8> {
    seq![66u8, 111, 111, 108]
}

pub open spec fn lit_true_upper() -> Seq<u8> {
    seq![84u8, 114, 117, 101]
}

pub open spec fn lit_true() -> Seq<u8> {
    seq![116u8, 114, 117, 101]
}

pub open spec fn lit_int() -> Seq<u8> {
    seq![73u8, 110, 116]
}

pub open spec fn lit_long_upper() -> Seq<u8> {
    seq![76u8, 111, 110, 103]
}

pub open spec fn lit_long() -> Seq<u8> {
    seq![108u8, 111, 110, 103]
}

pub open spec fn lit_float() -> Seq<u8> {
    seq![70u8, 108, 111, 97, 116]
}

pub open spec fn lit_double() -> Seq<u8> {
    seq![68u8, 111, 117, 98, 108, 101]
}

pub open spec fn lit_string() -> Seq<u8> {
    seq![83u8, 116, 114, 105, 110, 103]
}

pub open spec fn lit_bytes() -> Seq<u8> {
    seq![66u8, 121, 116, 101, 115]
}

/// `Vector<`
pub open spec fn lit_vector_upper() -> Seq<u8> {
    seq![86u8, 101, 99, 116, 111, 114, 60]
}

/// `vector<`
pub open spec fn lit_vector() -> Seq<u8> {
    seq![118u8, 101, 99, 116, 111, 114, 60]
}

/// `flags.`
pub open spec fn lit_flags() -> Seq<u8> {
    seq![102u8, 108, 97, 103, 115, 46]
}

/// The type that the token `t` names: the primitive words by whole token,
/// `Vector<T>` by its structure, and any other token as a named type.
pub open spec fn type_model(t: Seq<u8>) -> TypeModel
    decreases t.len(),
{
    if t == seq![35u8] {
        TypeModel::Flags
    } else if t == lit_bool() || t == lit_true_upper() || t == lit_true() {
        TypeModel::Bool
    } else if t == lit_int() {
        TypeModel::Int
    } else if t == lit_long_upper() || t == lit_long() {
        TypeModel::Long
    } else if t == lit_float() {
        TypeModel::Float
    } else if t == lit_double() {
        TypeModel::Double
    } else if t == lit_string() {
        TypeModel::Str
    } else if t == lit_bytes() {
        TypeModel::Bytes
    } else if t.len() >= 8 && (t.subrange(0, 7) == lit_vector_upper() || t.subrange(0, 7)
        == lit_vector()) && t.last() == 62u8 {
        TypeModel::Vector(Box::new(type_model(t.subrange(7, t.len() - 1))))
    } else {
        TypeModel::Named(camel(t))
    }
}

/// The type that `s[from..to]` names (see [`type_model`]).
pub fn map_type(s: &[u8], from: usize, to: usize) -> (r: TypeRef)
    requires
        from <= to <= s@.len(),
    ensures
        r.view() == type_model(s@.subrange(from as int, to as int)),
    decreases to - from,
{
    let ghost t = s@.subrange(from as int, to as int);
    let w_hash: [u8; 1] = [35];
    let w_bool: [u8; 4] = [66, 111, 111, 108];
    let w_true_upper: [u8; 4] = [84, 114, 117, 101];
    let w_true: [u8; 4] = [116, 114, 117, 101];
    let w_int: [u8; 3] = [73, 110, 116];
    let w_long_upper: [u8; 4] = [76, 111, 110, 103];
    let w_long: [u8; 4] = [108, 111, 110, 103];
    let w_float: [u8; 5] = [70, 108, 111, 97, 116];
    let w_double: [u8; 6] = [68, 111, 117, 98, 108, 101];
    let w_string: [u8; 6] = [83, 116, 114, 105, 110, 103];
    let w_bytes: [u8; 5] = [66, 121, 116, 101, 115];
    let w_vector_upper: [u8; 7] = [86, 101, 99, 116, 111, 114, 60];
    let w_vector: [u8; 7] = [118, 101, 99, 116, 111, 114, 60];
    assert(w_hash@ =~= seq![35u8]);
    assert(w_bool@ =~= lit_bool());
    assert(w_true_upper@ =~= lit_true_upper());
    assert(w_true@ =~= lit_true());
    assert(w_int@ =~= lit_int());
    assert(w_long_upper@ =~= lit_long_upper());
    assert(w_long@ =~= lit_long());
    assert(w_float@ =~= lit_float());
    assert(w_double@ =~= lit_double());
    assert(w_string@ =~= lit_string());
    assert(w_bytes@ =~= lit_bytes());
    assert(w_vector_upper@ =~= lit_vector_upper());
    assert(w_vector@ =~= lit_vector());
    if range_equals(s, from, to, &w_hash) {
        TypeRef::Flags
    } else if range_equals(s, from, to, &w_bool) || range_equals(s, from, to, &w_true_upper)
        || range_equals(s, from, to, &w_true) {
        TypeRef::Bool
    } else if range_equals(s, from, to, &w_int) {
        TypeRef::Int
    } else if range_equals(s, from, to, &w_long_upper) || range_equals(s, from, to, &w_long) {
        TypeRef::Long
    } else if range_equals(s, from, to, &w_float) {
        TypeRef::Float
    } else if range_equals(s, from, to, &w_double) {
        TypeRef::Double
    } else if range_equals(s, from, to, &w_string) {
        TypeRef::Str
    } else if range_equals(s, from, to, &w_bytes) {
        TypeRef::Bytes
    } else if to - from >= 8 && (range_equals(s, from, from + 7, &w_vector_upper) || range_equals(
        s,
        from,
        from + 7,
        &w_vector,
    )) && s[to - 1] == 62u8 {
        assert(t.subrange(0, 7) =~= s@.subrange(from as int, from + 7));
        assert(t.subrange(7, t.len() - 1) =~= s@.subrange(from + 7, to - 1));
        let inner = map_type(s, from + 7, to - 1);
        TypeRef::Vector(Box::new(inner))
    } else {
        proof {
            if t.len() >= 8 {
                assert(t.subrange(0, 7) =~= s@.subrange(from as int, from + 7));
            }
        }
        TypeRef::Named(dot_to_camel(s, from, to))
    }
}

/// The argument that the token `t` declares: `name:type` or
/// `name:flags.N?type`; `None` where `t` is not of that shape.
pub open spec fn arg_model(t: Seq<u8>) -> Option<ArgModel> {
    let k = index_of(t, 58u8);
    if k >= t.len() || k == 0 || !all_in(CharClass::Word, t.subrange(0, k as int)) {
        None
    } else {
        let rest = t.subrange(k + 1 as int, t.len() as int);
        let q = index_of(rest, 63u8);
        let conditional = rest.len() >= 6 && rest.subrange(0, 6) == lit_flags() && 6 < q < rest.len()
            && all_in(CharClass::Decimal, rest.subrange(6, q as int)) && number_value(
            rest.subrange(6, q as int),
            10,
        ) <= u32::MAX;
        let ty = if conditional {
            rest.subrange(q + 1 as int, rest.len() as int)
        } else {
            rest
        };
        if ty.len() == 0 || !all_in(CharClass::ArgType, ty) {
            None
        } else {
            Some(
                ArgModel {
                    name: t.subrange(0, k as int),
                    ty: type_model(ty),
                    flag_bit: if conditional {
                        Some(number_value(rest.subrange(6, q as int), 10) as u32)
                    } else {
                        None
                    },
                },
            )
        }
    }
}

/// The argument that the token `s[from..to]` declares (see [`arg_model`]).
pub fn parse_arg(s: &[u8], from: usize, to: usize) -> (r: Option<Argument>)
    requires
        from <= to <= s@.len(),
    ensures
        match arg_model(s@.subrange(from as int, to as int)) {
            Some(a) => r is Some && r->Some_0.view() == a,
            None => r is None,
        },
{
    let ghost t = s@.subrange(from as int, to as int);
    let colon = find_byte(s, from, to, 58u8);
    if colon >= to || colon == from {
        return None;
    }
    assert(t.subrange(0, colon - from) =~= s@.subrange(from as int, colon as int));
    if !all_of_class(CharClass::Word, s, from, colon) {
        return None;
    }
    let ghost rest = t.subrange(colon - from + 1, t.len() as int);
    assert(rest =~= s@.subrange(colon + 1, to as int));
    let start = colon + 1;
    let q = find_byte(s, start, to, 63u8);
    let w_flags: [u8; 6] = [102, 108, 97, 103, 115, 46];
    assert(w_flags@ =~= lit_flags());
    let mut bit: Option<u32> = None;
    let mut ty_from = start;
    if to - start >= 6 && q < to && q > start + 6 && range_equals(s, start, start + 6, &w_flags) {
        assert(rest.subrange(0, 6) =~= s@.subrange(start as int, start + 6));
        assert(rest.subrange(6, q - start) =~= s@.subrange(start + 6, q as int));
        if all_of_class(CharClass::Decimal, s, start + 6, q) {
            match parse_number(s, start + 6, q, 10) {
                Some(v) => {
                    bit = Some(v);
                    ty_from = q + 1;
                    assert(rest.subrange(q - start + 1, rest.len() as int) =~= s@.subrange(
                        q + 1,
                        to as int,
                    ));
                },
                None => {},
            }
        }
    } else {
        proof {
            if rest.len() >= 6 {
                assert(rest.subrange(0, 6) =~= s@.subrange(start as int, start + 6));
            }
        }
    }
    if ty_from == to || !all_of_class(CharClass::ArgType, s, ty_from, to) {
        return None;
    }
    let ty = map_type(s, ty_from, to);
    let name = slice_to_vec(s, from, colon);
    Some(Argument { name, ty, flag_bit: bit })
}

/// A copy of `s[from..to]`.
pub fn slice_to_vec(s: &[u8], from: usize, to: usize) -> (r: Vec<u8>)
    requires
        from <= to <= s@.len(),
    ensures
        r@ == s@.subrange(from as int, to as int),
{
    let mut r: Vec<u8> = Vec::new();
    let mut i: usize = from;
    while i < to
        invariant
            from <= i <= to <= s@.len(),
            r@ == s@.subrange(from as int, i as int),
        decreases to - i,
    {
        r.push(s[i]);
        i = i + 1;
        assert(r@ =~= s@.subrange(from as int, i as int));
    }
    r
}

/// The arguments declared by the space-separated tokens of `s`, in order;
/// tokens that hold a brace, and tokens not of an argument's shape, declare
/// none.
pub open spec fn args_of(s: Seq<u8>) -> Seq<ArgModel>
    decreases s.len(),
{
    if s.len() == 0 {
        Seq::empty()
    } else {
        let k = index_of(s, 32u8);
        let tok = s.subrange(0, k as int);
        let here = if index_of(tok, 123u8) < tok.len() {
            Seq::empty()
        } else {
            match arg_model(tok) {
                Some(a) => seq![a],
                None => Seq::empty(),
            }
        };
        if k < s.len() {
            here + args_of(s.subrange(k + 1 as int, s.len() as int))
        } else {
            here
        }
    }
}

/// The arguments declared in `s[from..to]` (see [`args_of`]).
pub fn parse_args(s: &[u8], from: usize, to: usize) -> (r: Vec<Argument>)
    requires
        from <= to <= s@.len(),
    ensures
        args_view(r@) == args_of(s@.subrange(from as int, to as int)),
{
    let mut r: Vec<Argument> = Vec::new();
    let mut pos: usize = from;
    assert(args_view(r@) =~= Seq::<ArgModel>::empty());
    while pos < to
        invariant
            from <= pos <= to <= s@.len(),
            args_of(s@.subrange(from as int, to as int)) == args_view(r@) + args_of(
                s@.subrange(pos as int, to as int),
            ),
        decreases to - pos,
    {
        let ghost cur = s@.subrange(pos as int, to as int);
        let k = find_byte(s, pos, to, 32u8);
        assert(cur.subrange(0, k - pos) =~= s@.subrange(pos as int, k as int));
        let ghost before = r@;
        let brace = find_byte(s, pos, k, 123u8);
        if brace == k {
            match parse_arg(s, pos, k) {
                Some(a) => {
                    r.push(a);
                    assert(args_view(r@) =~= args_view(before) + seq![a.view()]);
                },
                None => {},
            }
        }
        if k < to {
            assert(cur.subrange(k - pos + 1, cur.len() as int) =~= s@.subrange(k + 1, to as int));
            pos = k + 1;
            assert(args_view(r@) + args_of(s@.subrange(pos as int, to as int)) =~= args_view(
                before,
            ) + args_of(cur));
        } else {
            pos = to;
            assert(args_of(s@.subrange(pos as int, to as int)) =~= Seq::<ArgModel>::empty());
            assert(args_view(r@) + args_of(s@.subrange(pos as int, to as int)) =~= args_view(
                before,
            ) + args_of(cur));
        }
    }
    assert(args_view(r@) + args_of(s@.subrange(pos as int, to as int)) =~= args_view(r@)) by {
        assert(s@.subrange(pos as int, to as int) =~= Seq::<u8>::empty());
    }
    r
}

/// Why a schema was rejected.
#[derive(Debug, Clone, Copy, PartialEq, Eq, Structural)]
pub enum SchemaError {
    /// A constructor id is not a hexadecimal number of at most 32 bits.
    MalformedId,
}

/// What one line of a schema holds.
pub enum LineModel {
    /// Not an item: blank, a comment, or not of an item's shape.
    Skip,
    /// An item whose constructor id is malformed.
    BadId,
    /// An item.
    Item(ItemModel),
}

/// What the line `l` holds: an item is
/// `<dotted-name>#<hex-id> <args>= <dotted-result-type>;`, followed by
/// anything.
pub open spec fn line_model(l: Seq<u8>) -> LineModel {
    let h = index_of(l, 35u8);
    if h >= l.len() || h == 0 || !all_in(CharClass::Name, l.subrange(0, h as int)) {
        LineModel::Skip
    } else {
        let rest = l.subrange(h + 1 as int, l.len() as int);
        let sp = index_of(rest, 32u8);
        if sp >= rest.len() {
            LineModel::Skip
        } else {
            let idt = rest.subrange(0, sp as int);
            if idt.len() == 0 || !all_in(CharClass::Hex, idt) || number_value(idt, 16) > u32::MAX {
                LineModel::BadId
            } else {
                let tail = rest.subrange(sp + 1 as int, rest.len() as int);
                let eq = index_of(tail, 61u8);
                if eq >= tail.len() || !all_in(CharClass::ArgList, tail.subrange(0, eq as int)) {
                    LineModel::Skip
                } else {
                    let after = tail.subrange(eq + 1 as int, tail.len() as int);
                    if after.len() == 0 || after[0] != 32u8 {
                        LineModel::Skip
                    } else {
                        let t = after.subrange(1, after.len() as int);
                        let e = index_of(t, 59u8);
                        if e >= t.len() || e == 0 || !all_in(
                            CharClass::ResultType,
                            t.subrange(0, e as int),
                        ) {
                            LineModel::Skip
                        } else {
                            LineModel::Item(
                                ItemModel {
                                    name: camel(l.subrange(0, h as int)),
                                    id: number_value(idt, 16) as u32,
                                    result_type: camel(t.subrange(0, e as int)),
                                    args: args_of(tail.subrange(0, eq as int)),
                                },
                            )
                        }
                    }
                }
            }
        }
    }
}

/// Parses the line `s[from..to]` (see [`line_model`]): `Ok(None)` where it
/// holds no item.
pub fn parse_line(s: &[u8], from: usize, to: usize) -> (r: Result<Option<SchemaItem>, SchemaError>)
    requires
        from <= to <= s@.len(),
    ensures
        match line_model(s@.subrange(from as int, to as int)) {
            LineModel::Skip => r == Ok::<Option<SchemaItem>, SchemaError>(None),
            LineModel::BadId => r == Err::<Option<SchemaItem>, SchemaError>(SchemaError::MalformedId),
            LineModel::Item(m) => r is Ok && r->Ok_0 is Some && r->Ok_0->Some_0.view() == m,
        },
{
    let ghost l = s@.subrange(from as int, to as int);
    let h = find_byte(s, from, to, 35u8);
    if h >= to || h == from {
        return Ok(None);
    }
    assert(l.subrange(0, h - from) =~= s@.subrange(from as int, h as int));
    if !all_of_class(CharClass::Name, s, from, h) {
        return Ok(None);
    }
    let ghost rest = l.subrange(h - from + 1, l.len() as int);
    assert(rest =~= s@.subrange(h + 1, to as int));
    let sp = find_byte(s, h + 1, to, 32u8);
    if sp >= to {
        return Ok(None);
    }
    assert(rest.subrange(0, sp - h - 1) =~= s@.subrange(h + 1, sp as int));
    if sp == h + 1 || !all_of_class(CharClass::Hex, s, h + 1, sp) {
        return Err(SchemaError::MalformedId);
    }
    let id = match parse_number(s, h + 1, sp, 16) {
        Some(v) => v,
        None => {
            return Err(SchemaError::MalformedId);
        },
    };
    let ghost tail = rest.subrange(sp - h, rest.len() as int);
    assert(tail =~= s@.subrange(sp + 1, to as int));
    let eq = find_byte(s, sp + 1, to, 61u8);
    if eq >= to {
        return Ok(None);
    }
    assert(tail.subrange(0, eq - sp - 1) =~= s@.subrange(sp + 1, eq as int));
    if !all_of_class(CharClass::ArgList, s, sp + 1, eq) {
        return Ok(None);
    }
    let ghost after = tail.subrange(eq - sp, tail.len() as int);
    assert(after =~= s@.subrange(eq + 1, to as int));
    if eq + 1 >= to || s[eq + 1] != 32u8 {
        return Ok(None);
    }
    let ghost t = after.subrange(1, after.len() as int);
    assert(t =~= s@.subrange(eq + 2, to as int));
    let e = find_byte(s, eq + 2, to, 59u8);
    if e >= to || e == eq + 2 {
        return Ok(None);
    }
    assert(t.subrange(0, e - eq - 2) =~= s@.subrange(eq + 2, e as int));
    if !all_of_class(CharClass::ResultType, s, eq + 2, e) {
        return Ok(None);
    }
    let name = dot_to_camel(s, from, h);
    let result_type = dot_to_camel(s, eq + 2, e);
    let args = parse_args(s, sp + 1, eq);
    Ok(Some(SchemaItem { name, id, result_type, args }))
}

/// The line that switches a schema from constructors to functions.
pub open spec fn lit_marker() -> Seq<u8> {
    seq![45u8, 45, 45, 102, 117, 110, 99, 116, 105, 111, 110, 115, 45, 45, 45]
}

/// A line without the carriage return that may end it.
pub open spec fn strip_cr(l: Seq<u8>) -> Seq<u8> {
    if l.len() > 0 && l.last() == 13u8 {
        l.drop_last()
    } else {
        l
    }
}

/// The constructors and functions of the schema text `text`, read in
/// constructor mode unless `functions`; `None` where an item has a malformed
/// id.
pub open spec fn schema_from(text: Seq<u8>, functions: bool) -> Option<(Seq<ItemModel>, Seq<ItemModel>)>
    decreases text.len(),
{
    if text.len() == 0 {
        Some((Seq::empty(), Seq::empty()))
    } else {
        let k = index_of(text, 10u8);
        let line = strip_cr(text.subrange(0, k as int));
        let is_marker = line == lit_marker();
        let rest = if k < text.len() {
            schema_from(text.subrange(k + 1 as int, text.len() as int), functions || is_marker)
        } else {
            Some((Seq::empty(), Seq::empty()))
        };
        if is_marker {
            rest
        } else {
            match line_model(line) {
                LineModel::BadId => None,
                LineModel::Skip => rest,
                LineModel::Item(it) => match rest {
                    None => None,
                    Some((cs, fs)) => if functions {
                        Some((cs, seq![it] + fs))
                    } else {
                        Some((seq![it] + cs, fs))
                    },
                },
            }
        }
    }
}

/// One step of [`schema_from`]: the first line of `cur`, then the rest.
proof fn lemma_schema_step(cur: Seq<u8>, functions: bool, line: Seq<u8>, rest: Seq<u8>)
    requires
        cur.len() > 0,
        line == strip_cr(cur.subrange(0, index_of(cur, 10u8) as int)),
        rest == (if index_of(cur, 10u8) < cur.len() {
            cur.subrange(index_of(cur, 10u8) + 1 as int, cur.len() as int)
        } else {
            Seq::<u8>::empty()
        }),
    ensures
        schema_from(cur, functions) == (if line == lit_marker() {
            schema_from(rest, true)
        } else {
            match line_model(line) {
                LineModel::BadId => None,
                LineModel::Skip => schema_from(rest, functions),
                LineModel::Item(it) => match schema_from(rest, functions) {
                    None => None,
                    Some((cs, fs)) => if functions {
                        Some((cs, seq![it] + fs))
                    } else {
                        Some((seq![it] + cs, fs))
                    },
                },
            }
        }),
{
    if index_of(cur, 10u8) >= cur.len() {
        assert(schema_from(rest, true) == Some((Seq::<ItemModel>::empty(), Seq::<ItemModel>::empty())));
        assert(schema_from(rest, functions) == Some((Seq::<ItemModel>::empty(), Seq::<ItemModel>::empty())));
    }
}

/// Where the line that starts at `pos` ends, without its carriage return,
/// and where the next one starts.
fn line_bounds(text: &[u8], pos: usize) -> (r: (usize, usize))
    requires
        pos < text@.len(),
    ensures
        pos <= r.0 <= r.1 <= text@.len(),
        r.1 > pos,
        ({
            let cur = text@.subrange(pos as int, text@.len() as int);
            let k = index_of(cur, 10u8);
            &&& text@.subrange(pos as int, r.0 as int) == strip_cr(cur.subrange(0, k as int))
            &&& text@.subrange(r.1 as int, text@.len() as int) == (if k < cur.len() {
                cur.subrange(k + 1 as int, cur.len() as int)
            } else {
                Seq::<u8>::empty()
            })
        }),
{
    let n = text.len();
    let ghost cur = text@.subrange(pos as int, n as int);
    let k = find_byte(text, pos, n, 10u8);
    assert(cur.subrange(0, k - pos) =~= text@.subrange(pos as int, k as int));
    let end = if k > pos && text[k - 1] == 13u8 {
        k - 1
    } else {
        k
    };
    assert(strip_cr(cur.subrange(0, k - pos)) =~= text@.subrange(pos as int, end as int));
    if k < n {
        assert(cur.subrange(k - pos + 1, cur.len() as int) =~= text@.subrange(k + 1, n as int));
        (end, k + 1)
    } else {
        assert(text@.subrange(n as int, n as int) =~= Seq::<u8>::empty());
        (end, n)
    }
}

/// The numbers of the lines of `text` that hold something other than an item
/// or the functions marker, counting its first line as `first`.
pub open spec fn skipped_from(text: Seq<u8>, first: nat) -> Seq<nat>
    decreases text.len(),
{
    if text.len() == 0 {
        Seq::empty()
    } else {
        let k = index_of(text, 10u8);
        let line = strip_cr(text.subrange(0, k as int));
        let rest = if k < text.len() {
            skipped_from(text.subrange(k + 1 as int, text.len() as int), first + 1)
        } else {
            Seq::empty()
        };
        if line != lit_marker() && line.len() > 0 && line_model(line) is Skip {
            seq![first] + rest
        } else {
            rest
        }
    }
}

/// One step of [`skipped_from`]: the first line of `cur`, then the rest.
proof fn lemma_skipped_step(cur: Seq<u8>, first: nat, line: Seq<u8>, rest: Seq<u8>)
    requires
        cur.len() > 0,
        line == strip_cr(cur.subrange(0, index_of(cur, 10u8) as int)),
        rest == (if index_of(cur, 10u8) < cur.len() {
            cur.subrange(index_of(cur, 10u8) + 1 as int, cur.len() as int)
        } else {
            Seq::<u8>::empty()
        }),
    ensures
        skipped_from(cur, first) == (if line != lit_marker() && line.len() > 0 && line_model(
            line,
        ) is Skip {
            seq![first] + skipped_from(rest, first + 1)
        } else {
            skipped_from(rest, first + 1)
        }),
{
    if index_of(cur, 10u8) >= cur.len() {
        assert(skipped_from(rest, first + 1) == Seq::<nat>::empty());
    }
}

/// The constructors and functions of `text`, read from its start.
pub open spec fn schema_model(text: Seq<u8>) -> Option<(Seq<ItemModel>, Seq<ItemModel>)> {
    schema_from(text, false)
}

/// `o` with `cs` and `fs` put in front of its two lists.
pub open spec fn prepend(
    cs: Seq<ItemModel>,
    fs: Seq<ItemModel>,
    o: Option<(Seq<ItemModel>, Seq<ItemModel>)>,
) -> Option<(Seq<ItemModel>, Seq<ItemModel>)> {
    match o {
        None => None,
        Some((c2, f2)) => Some((cs + c2, fs + f2)),
    }
}

/// A parsed schema.
#[derive(Debug)]
pub struct Schema {
    /// The items before the functions marker, in order.
    pub constructors: Vec<SchemaItem>,
    /// The items after it, in order.
    pub functions: Vec<SchemaItem>,
    /// The numbers, from 0, of the non-blank lines that are neither an item
    /// nor the functions marker, in order.
    pub skipped: Vec<usize>,
}

/// Parses schema text: each line is an item, the functions marker, or
/// skipped; a malformed constructor id rejects the whole schema.
pub fn parse_schema(text: &[u8]) -> (r: Result<Schema, SchemaError>)
    ensures
        match schema_model(text@) {
            None => r == Err::<Schema, SchemaError>(SchemaError::MalformedId),
            Some((cs, fs)) => r is Ok && items_view(r->Ok_0.constructors@) == cs && items_view(
                r->Ok_0.functions@,
            ) == fs && r->Ok_0.skipped@.map_values(|l: usize| l as nat) == skipped_from(text@, 0),
        },
{
    let n = text.len();
    let mut constructors: Vec<SchemaItem> = Vec::new();
    let mut functions: Vec<SchemaItem> = Vec::new();
    let mut skipped: Vec<usize> = Vec::new();
    let mut line_no: usize = 0;
    let mut in_functions = false;
    let mut pos: usize = 0;
    assert(text@.subrange(0, n as int) =~= text@);
    assert(items_view(constructors@) =~= Seq::<ItemModel>::empty());
    assert(items_view(functions@) =~= Seq::<ItemModel>::empty());
    let w_marker: [u8; 15] = [45, 45, 45, 102, 117, 110, 99, 116, 105, 111, 110, 115, 45, 45, 45];
    assert(w_marker@ =~= lit_marker());
    while pos < n
        invariant
            pos <= n == text@.len(),
            w_marker@ == lit_marker(),
            line_no <= pos,
            skipped_from(text@, 0) == skipped@.map_values(|l: usize| l as nat) + skipped_from(
                text@.subrange(pos as int, n as int),
                line_no as nat,
            ),
            schema_model(text@) == prepend(
                items_view(constructors@),
                items_view(functions@),
                schema_from(text@.subrange(pos as int, n as int), in_functions),
            ),
        decreases n - pos,
    {
        let ghost cur = text@.subrange(pos as int, n as int);
        let ghost cs0 = constructors@;
        let ghost fs0 = functions@;
        let ghost f0 = in_functions;
        let (end, next) = line_bounds(text, pos);
        let is_marker = range_equals(text, pos, end, &w_marker);
        let ghost sk0 = skipped@;
        proof {
            lemma_schema_step(
                cur,
                f0,
                text@.subrange(pos as int, end as int),
                text@.subrange(next as int, n as int),
            );
            lemma_skipped_step(
                cur,
                line_no as nat,
                text@.subrange(pos as int, end as int),
                text@.subrange(next as int, n as int),
            );
        }
        if is_marker {
            in_functions = true;
        } else {
            match parse_line(text, pos, end) {
                Err(e) => {
                    return Err(e);
                },
                Ok(None) => {
                    if end > pos {
                        skipped.push(line_no);
                        assert(skipped@.map_values(|l: usize| l as nat) =~= sk0.map_values(
                            |l: usize| l as nat,
                        ) + seq![line_no as nat]);
                    }
                },
                Ok(Some(item)) => {
                    let ghost iv = item.view();
                    if in_functions {
                        functions.push(item);
                        assert(items_view(functions@) =~= items_view(fs0) + seq![iv]);
                    } else {
                        constructors.push(item);
                        assert(items_view(constructors@) =~= items_view(cs0) + seq![iv]);
                    }
                    proof {
                        let o = schema_from(text@.subrange(next as int, n as int), f0);
                        if o is Some {
                            let (c2, f2) = o->Some_0;
                            if f0 {
                                assert(items_view(fs0) + (seq![iv] + f2) =~= items_view(fs0)
                                    + seq![iv] + f2);
                            } else {
                                assert(items_view(cs0) + (seq![iv] + c2) =~= items_view(cs0)
                                    + seq![iv] + c2);
                            }
                        }
                    }
                },
            }
        }
        proof {
            let tail = skipped_from(text@.subrange(next as int, n as int), (line_no + 1) as nat);
            assert(sk0.map_values(|l: usize| l as nat) + (seq![line_no as nat] + tail)
                =~= sk0.map_values(|l: usize| l as nat) + seq![line_no as nat] + tail);
        }
        pos = next;
        line_no = line_no + 1;
    }
    proof {
        assert(text@.subrange(pos as int, n as int) =~= Seq::<u8>::empty());
        assert(items_view(constructors@) + Seq::<ItemModel>::empty() =~= items_view(constructors@));
        assert(items_view(functions@) + Seq::<ItemModel>::empty() =~= items_view(functions@));
    }
    assert(skipped@.map_values(|l: usize| l as nat) + Seq::<nat>::empty() =~= skipped@.map_values(
        |l: usize| l as nat,
    ));
    Ok(Schema { constructors, functions, skipped })
}

/// Compiles schema text into the declarations of its constructors.
pub fn compile(text: &[u8]) -> (r: Result<Vec<Declaration>, SchemaError>)
    ensures
        match schema_model(text@) {
            None => r == Err::<Vec<Declaration>, SchemaError>(SchemaError::MalformedId),
            Some((cs, fs)) => r is Ok && decls_view(r->Ok_0@) == declarations(cs),
        },
{
    match parse_schema(text) {
        Ok(schema) => Ok(classify(&schema.constructors)),
        Err(e) => Err(e),
    }
}

} // verus!

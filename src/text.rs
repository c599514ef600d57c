//! Byte-level helpers of the schema parser: searching, character classes,
//! name conversion and numbers.
use vstd::prelude::*;

verus! {

/// The index of the first `c` in `s`, or the length of `s` where there is none.
pub open spec fn index_of(s: Seq<u8>, c: u8) -> nat
    decreases s.len(),
{
    if s.len() == 0 {
        0
    } else if s[0] == c {
        0
    } else {
        1 + index_of(s.drop_first(), c)
    }
}

/// The sets of bytes that the grammar speaks of.
#[derive(Debug, Clone, Copy, PartialEq, Eq, Structural)]
pub enum CharClass {
    /// Letters, digits and `_`.
    Word,
    /// Word bytes and `.`.
    Name,
    /// Bytes of an argument list: word bytes and ` <>:#?.{}!`.
    ArgList,
    /// Bytes of a result type: word bytes and `<.>`.
    ResultType,
    /// Bytes of an argument type: word bytes and `<.>#`.
    ArgType,
    /// `0` to `9`.
    Decimal,
    /// `0` to `9`, `a` to `f`, `A` to `F`.
    Hex,
}

pub open spec fn is_word(c: u8) -> bool {
    (48 <= c <= 57) || (65 <= c <= 90) || (97 <= c <= 122) || c == 95
}

pub open spec fn in_class(k: CharClass, c: u8) -> bool {
    match k {
        CharClass::Word => is_word(c),
        CharClass::Name => is_word(c) || c == 46,
        CharClass::ArgList => is_word(c) || c == 32 || c == 60 || c == 62 || c == 58 || c == 35
            || c == 63 || c == 46 || c == 123 || c == 125 || c == 33,
        CharClass::ResultType => is_word(c) || c == 60 || c == 46 || c == 62,
        CharClass::ArgType => is_word(c) || c == 60 || c == 46 || c == 62 || c == 35,
        CharClass::Decimal => 48 <= c <= 57,
        CharClass::Hex => (48 <= c <= 57) || (65 <= c <= 70) || (97 <= c <= 102),
    }
}

/// Every byte of `s` is in `k`.
pub open spec fn all_in(k: CharClass, s: Seq<u8>) -> bool {
    forall|i: int| 0 <= i < s.len() ==> in_class(k, #[trigger] s[i])
}

/// The ASCII upper case of `c`.
pub open spec fn upper(c: u8) -> u8 {
    if 97 <= c <= 122 { (c - 32) as u8 } else { c }
}

/// A dotted lower-case name as one identifier: the dots are dropped and the
/// byte that starts each segment is put in upper case.
pub open spec fn camel(s: Seq<u8>) -> Seq<u8>
    decreases s.len(),
{
    if s.len() == 0 {
        Seq::empty()
    } else {
        let prev = s.drop_last();
        let c = s.last();
        if c == 46u8 {
            camel(prev)
        } else if prev.len() == 0 || prev.last() == 46u8 {
            camel(prev).push(upper(c))
        } else {
            camel(prev).push(c)
        }
    }
}

/// The value of a digit in base sixteen (or ten, for `0` to `9`).
pub open spec fn digit_value(c: u8) -> nat {
    if 48 <= c <= 57 {
        (c - 48) as nat
    } else if 65 <= c <= 70 {
        (c - 55) as nat
    } else if 97 <= c <= 102 {
        (c - 87) as nat
    } else {
        0
    }
}

/// The number that the digits `s` write in base `base`.
pub open spec fn number_value(s: Seq<u8>, base: nat) -> nat
    decreases s.len(),
{
    if s.len() == 0 {
        0
    } else {
        base * number_value(s.drop_last(), base) + digit_value(s.last())
    }
}

/// The first `c` in `s[from..to]`, or `to`.
pub fn find_byte(s: &[u8], from: usize, to: usize, c: u8) -> (r: usize)
    requires
        from <= to <= s@.len(),
    ensures
        r == from + index_of(s@.subrange(from as int, to as int), c),
        from <= r <= to,
{
    let mut i: usize = from;
    while i < to
        invariant
            from <= i <= to <= s@.len(),
            index_of(s@.subrange(from as int, to as int), c) == (i - from) + index_of(
                s@.subrange(i as int, to as int),
                c,
            ),
        decreases to - i,
    {
        if s[i] == c {
            return i;
        }
        assert(s@.subrange(i as int, to as int).drop_first() =~= s@.subrange(i + 1, to as int));
        i = i + 1;
    }
    i
}

/// Whether every byte of `s[from..to]` is in `k`.
pub fn all_of_class(k: CharClass, s: &[u8], from: usize, to: usize) -> (r: bool)
    requires
        from <= to <= s@.len(),
    ensures
        r == all_in(k, s@.subrange(from as int, to as int)),
{
    let mut i: usize = from;
    while i < to
        invariant
            from <= i <= to <= s@.len(),
            forall|j: int| from <= j < i ==> in_class(k, #[trigger] s@[j]),
        decreases to - i,
    {
        let c = s[i];
        let ok = match k {
            CharClass::Word => is_word_byte(c),
            CharClass::Name => is_word_byte(c) || c == 46,
            CharClass::ArgList => is_word_byte(c) || c == 32 || c == 60 || c == 62 || c == 58 || c
                == 35 || c == 63 || c == 46 || c == 123 || c == 125 || c == 33,
            CharClass::ResultType => is_word_byte(c) || c == 60 || c == 46 || c == 62,
            CharClass::ArgType => is_word_byte(c) || c == 60 || c == 46 || c == 62 || c == 35,
            CharClass::Decimal => 48 <= c && c <= 57,
            CharClass::Hex => (48 <= c && c <= 57) || (65 <= c && c <= 70) || (97 <= c && c
                <= 102),
        };
        if !ok {
            assert(s@.subrange(from as int, to as int)[i - from] == c);
            return false;
        }
        i = i + 1;
    }
    true
}

fn is_word_byte(c: u8) -> (r: bool)
    ensures
        r == is_word(c),
{
    (48 <= c && c <= 57) || (65 <= c && c <= 90) || (97 <= c && c <= 122) || c == 95
}

/// `s[from..to]` as one identifier (see [`camel`]).
pub fn dot_to_camel(s: &[u8], from: usize, to: usize) -> (r: Vec<u8>)
    requires
        from <= to <= s@.len(),
    ensures
        r@ == camel(s@.subrange(from as int, to as int)),
{
    let mut r: Vec<u8> = Vec::new();
    let mut i: usize = from;
    assert(s@.subrange(from as int, from as int) =~= Seq::<u8>::empty());
    while i < to
        invariant
            from <= i <= to <= s@.len(),
            r@ == camel(s@.subrange(from as int, i as int)),
        decreases to - i,
    {
        let c = s[i];
        let ghost cur = s@.subrange(from as int, i + 1);
        assert(cur.drop_last() =~= s@.subrange(from as int, i as int));
        assert(cur.last() == c);
        if c != 46u8 {
            if i == from || s[i - 1] == 46u8 {
                let u: u8 = if 97 <= c && c <= 122 { c - 32 } else { c };
                r.push(u);
            } else {
                r.push(c);
            }
        }
        i = i + 1;
    }
    r
}

proof fn lemma_number_grows(s: Seq<u8>, k: int, base: nat)
    requires
        0 <= k <= s.len(),
        base >= 1,
    ensures
        number_value(s, base) >= number_value(s.subrange(0, k), base),
    decreases s.len(),
{
    if k < s.len() {
        assert(s.drop_last().subrange(0, k) =~= s.subrange(0, k));
        lemma_number_grows(s.drop_last(), k, base);
        assert(base * number_value(s.drop_last(), base) >= number_value(s.drop_last(), base))
            by (nonlinear_arith)
            requires
                base >= 1,
        ;
    } else {
        assert(s.subrange(0, k) =~= s);
    }
}

/// The number that the digits `s[from..to]` write in base `base`, where it
/// fits in 32 bits; `None` where it does not.
pub fn parse_number(s: &[u8], from: usize, to: usize, base: u64) -> (r: Option<u32>)
    requires
        from <= to <= s@.len(),
        base == 10 || base == 16,
    ensures
        match r {
            Some(v) => v == number_value(s@.subrange(from as int, to as int), base as nat),
            None => number_value(s@.subrange(from as int, to as int), base as nat) > u32::MAX,
        },
{
    let ghost t = s@.subrange(from as int, to as int);
    let mut acc: u64 = 0;
    let mut i: usize = from;
    assert(t.subrange(0, 0) =~= Seq::<u8>::empty());
    while i < to
        invariant
            from <= i <= to <= s@.len(),
            t == s@.subrange(from as int, to as int),
            base == 10 || base == 16,
            acc <= u32::MAX,
            acc == number_value(t.subrange(0, i - from), base as nat),
        decreases to - i,
    {
        let c = s[i];
        let d: u64 = if 48 <= c && c <= 57 {
            (c - 48) as u64
        } else if 65 <= c && c <= 70 {
            (c - 55) as u64
        } else if 97 <= c && c <= 102 {
            (c - 87) as u64
        } else {
            0
        };
        let ghost pre = t.subrange(0, i + 1 - from);
        assert(pre.drop_last() =~= t.subrange(0, i - from));
        assert(pre.last() == c);
        assert(acc * base <= 0xffff_ffff * 16) by (nonlinear_arith)
            requires
                acc <= 0xffff_ffff,
                base <= 16,
        ;
        acc = acc * base + d;
        i = i + 1;
        if acc > 0xffff_ffffu64 {
            proof {
                lemma_number_grows(t, i - from, base as nat);
            }
            return None;
        }
    }
    assert(t.subrange(0, i - from) =~= t);
    Some(acc as u32)
}

} // verus!

//! A cursor over an in-memory byte buffer, and the per-type encode / decode
//! capability that drives it.
use vstd::prelude::*;
use vstd::utf8::encode_utf8;
use crate::wire::{
    WireError, BOOL_TRUE_ID, BOOL_FALSE_ID, VECTOR_ID, BUFFER_LIMIT, le4, le8, u32_of_le, u64_of_le,
    buffer_wire, buffer_prefix, parse_buffer, parse_prefix, padding_len, zeros, push_u32_le, read_u32_le, push_u64_le,
    read_u64_le, lemma_le4_round_trip, lemma_le8_round_trip, lemma_i32_bits, lemma_i64_bits,
};

verus! {

/// Bytes being written or read. Writes append at the end; reads consume from
/// the current position.
pub struct Cursor {
    data: Vec<u8>,
    pos: usize,
}

/// A value with a wire form.
pub trait WireEncode {
    /// Whether every length field of the value fits its wire width.
    spec fn encodable(&self) -> bool;

    /// The bytes that encode the value.
    spec fn wire(&self) -> Seq<u8>;

    /// Appends the value's wire form to `out`; fails, leaving `out` as it
    /// was, exactly when a length does not fit.
    fn encode(&self, out: &mut Vec<u8>) -> (r: Result<(), WireError>)
        ensures
            r is Ok <==> self.encodable(),
            r is Ok ==> final(out)@ == old(out)@ + self.wire(),
            r is Err ==> r == Err::<(), WireError>(WireError::TooLong) && final(out)@ == old(out)@,
    ;
}

/// A value that can be read back from its wire form.
pub trait WireDecode: WireEncode + Sized {
    /// The value at the front of `b`, and how many bytes it takes; `None`
    /// where `b` does not start with one.
    spec fn parse(b: Seq<u8>) -> Option<(Self, nat)>;

    /// Reading a value's wire form back gives the value, whatever follows.
    proof fn lemma_round_trip(&self, rest: Seq<u8>)
        requires
            self.encodable(),
        ensures
            Self::parse(self.wire() + rest) == Some((*self, self.wire().len())),
    ;

    /// Reads one value from `buf` at `at`: `Some((v, n))` of `parse` gives
    /// `Ok((v, at + n))`, `None` gives an error.
    fn decode(buf: &[u8], at: usize) -> (r: Result<(Self, usize), WireError>)
        requires
            at <= buf@.len(),
        ensures
            match Self::parse(buf@.subrange(at as int, buf@.len() as int)) {
                Some((v, n)) => r is Ok && r->Ok_0.0 == v && r->Ok_0.1 == at + n,
                None => r is Err,
            },
            r is Ok ==> r->Ok_0.1 <= buf@.len(),
    ;
}

impl Cursor {
    /// Everything written so far, read or not.
    pub closed spec fn content(&self) -> Seq<u8> {
        self.data@
    }

    /// How many bytes have been read.
    pub closed spec fn offset(&self) -> nat {
        self.pos as nat
    }

    /// The position lies within what was written.
    pub open spec fn wf(&self) -> bool {
        self.offset() <= self.content().len()
    }

    /// The bytes not read yet.
    pub open spec fn unread(&self) -> Seq<u8> {
        self.content().subrange(self.offset() as int, self.content().len() as int)
    }

    /// An empty cursor.
    pub fn new() -> (r: Cursor)
        ensures
            r.wf(),
            r.content() == Seq::<u8>::empty(),
            r.offset() == 0,
    {
        Cursor { data: Vec::new(), pos: 0 }
    }

    /// A cursor that reads `data` from its start.
    pub fn from_bytes(data: Vec<u8>) -> (r: Cursor)
        ensures
            r.wf(),
            r.content() == data@,
            r.offset() == 0,
    {
        Cursor { data, pos: 0 }
    }

    /// The bytes written so far.
    pub fn bytes(&self) -> (r: &Vec<u8>)
        ensures
            r@ == self.content(),
    {
        &self.data
    }

    /// How many bytes have been read.
    pub fn position(&self) -> (r: usize)
        ensures
            r == self.offset(),
    {
        self.pos
    }

    /// Gives up the cursor and returns what was written.
    pub fn into_inner(self) -> (r: Vec<u8>)
        ensures
            r@ == self.content(),
    {
        self.data
    }

    /// Appends the wire form of `v`. Fails, writing nothing, exactly when a
    /// length in `v` does not fit its field.
    pub fn serialize<T: WireEncode>(&mut self, v: &T) -> (r: Result<(), WireError>)
        ensures
            r is Ok <==> v.encodable(),
            r is Ok ==> final(self).content() == old(self).content() + v.wire(),
            r is Err ==> final(self).content() == old(self).content(),
            final(self).offset() == old(self).offset(),
    {
        v.encode(&mut self.data)
    }

    /// Reads one value at the position and moves past it; on an error the
    /// cursor stays where it was.
    pub fn deserialize<T: WireDecode>(&mut self) -> (r: Result<T, WireError>)
        requires
            old(self).wf(),
        ensures
            final(self).wf(),
            final(self).content() == old(self).content(),
            match T::parse(old(self).unread()) {
                Some((v, n)) => r == Ok::<T, WireError>(v) && final(self).offset() == old(self).offset() + n,
                None => r is Err && final(self).offset() == old(self).offset(),
            },
    {
        match T::decode(self.data.as_slice(), self.pos) {
            Ok((v, next)) => {
                self.pos = next;
                Ok(v)
            },
            Err(e) => Err(e),
        }
    }

    /// Reads one vector at the position and moves past it; on an error the
    /// cursor stays where it was.
    pub fn deserialize_vector<T: WireDecode>(&mut self) -> (r: Result<Vec<T>, WireError>)
        requires
            old(self).wf(),
        ensures
            final(self).wf(),
            final(self).content() == old(self).content(),
            match parse_vector::<T>(old(self).unread()) {
                Some((xs, n)) => r is Ok && r->Ok_0@ == xs && final(self).offset() == old(self).offset() + n,
                None => r is Err && final(self).offset() == old(self).offset(),
            },
            old(self).unread().len() >= 4 && u32_of_le(old(self).unread()) != VECTOR_ID ==> r
                == Err::<Vec<T>, WireError>(WireError::BadVectorId),
    {
        let ghost u = self.unread();
        let at = self.pos;
        let avail = self.data.len() - at;
        if avail < 4 {
            return Err(WireError::UnexpectedEnd);
        }
        let id = read_u32_le(self.data.as_slice(), at);
        if id != VECTOR_ID {
            return Err(WireError::BadVectorId);
        }
        if avail < 8 {
            return Err(WireError::UnexpectedEnd);
        }
        let count = read_u32_le(self.data.as_slice(), at + 4);
        assert(self.data@.subrange(at + 4, self.data@.len() as int) =~= u.subrange(4, u.len() as int));
        let ghost body = u.subrange(8, u.len() as int);
        let mut p: usize = at + 8;
        let mut items: Vec<T> = Vec::new();
        let mut i: u32 = 0;
        assert(self.data@.subrange(p as int, self.data@.len() as int) =~= body);
        while i < count
            invariant
                at + 8 <= p <= self.data@.len(),
                i <= count,
                self.data@ == old(self).content(),
                at == old(self).offset(),
                u == old(self).unread(),
                body == u.subrange(8, u.len() as int),
                u.len() >= 8,
                u32_of_le(u) == VECTOR_ID,
                count == u32_of_le(u.subrange(4, u.len() as int)),
                parse_items::<T>(body, count as nat) == match parse_items::<T>(
                    self.data@.subrange(p as int, self.data@.len() as int),
                    (count - i) as nat,
                ) {
                    None => None,
                    Some((xs, m)) => Some((items@ + xs, ((p - at - 8) + m) as nat)),
                },
            decreases count - i,
        {
            let ghost cur = self.data@.subrange(p as int, self.data@.len() as int);
            match T::decode(self.data.as_slice(), p) {
                Ok((x, q)) => {
                    proof {
                        assert(cur.subrange(q - p, cur.len() as int) =~= self.data@.subrange(
                            q as int,
                            self.data@.len() as int,
                        ));
                        assert(items@.push(x) =~= items@ + seq![x]);
                        let rest = parse_items::<T>(
                            self.data@.subrange(q as int, self.data@.len() as int),
                            (count - i - 1) as nat,
                        );
                        if rest is Some {
                            let (xs, m) = rest->Some_0;
                            assert(items@ + (seq![x] + xs) =~= items@.push(x) + xs);
                        }
                    }
                    items.push(x);
                    p = q;
                    i = i + 1;
                },
                Err(e) => {
                    return Err(e);
                },
            }
        }
        assert(items@ + Seq::<T>::empty() =~= items@);
        self.pos = p;
        Ok(items)
    }

    /// Reads one length-prefixed buffer at the position and moves past it and
    /// its padding; on an error the cursor stays where it was.
    pub fn deserialize_bytes(&mut self) -> (r: Result<Vec<u8>, WireError>)
        requires
            old(self).wf(),
        ensures
            final(self).wf(),
            final(self).content() == old(self).content(),
            match parse_buffer(old(self).unread()) {
                Some((p, n)) => r is Ok && r->Ok_0@ == p && final(self).offset() == old(self).offset() + n,
                None => r == Err::<Vec<u8>, WireError>(WireError::UnexpectedEnd)
                    && final(self).offset() == old(self).offset(),
            },
    {
        let ghost u = self.unread();
        let at = self.pos;
        let avail = self.data.len() - at;
        if avail < 1 {
            return Err(WireError::UnexpectedEnd);
        }
        let first = self.data[at];
        let len: usize;
        let head: usize;
        if first == 254u8 {
            if avail < 4 {
                return Err(WireError::UnexpectedEnd);
            }
            len = self.data[at + 1] as usize + 256 * (self.data[at + 2] as usize) + 65536 * (
            self.data[at + 3] as usize);
            head = 4;
        } else {
            len = first as usize;
            head = 1;
        }
        assert(parse_prefix(u) == Some((len as nat, head as nat)));
        let pad: usize = (4 - (head + len) % 4) % 4;
        if avail < head + len + pad {
            return Err(WireError::UnexpectedEnd);
        }
        let start = at + head;
        let end = start + len;
        let mut out: Vec<u8> = Vec::new();
        let mut i: usize = 0;
        while i < len
            invariant
                i <= len,
                end == start + len,
                end <= self.data@.len(),
                out@ == self.data@.subrange(start as int, start + i),
            decreases len - i,
        {
            out.push(self.data[start + i]);
            i = i + 1;
            assert(out@ =~= self.data@.subrange(start as int, start + i));
        }
        assert(out@ =~= u.subrange(head as int, (head + len) as int));
        self.pos = at + head + len + pad;
        Ok(out)
    }
}

impl WireEncode for u32 {
    open spec fn encodable(&self) -> bool {
        true
    }

    open spec fn wire(&self) -> Seq<u8> {
        le4(*self)
    }

    fn encode(&self, out: &mut Vec<u8>) -> (r: Result<(), WireError>) {
        push_u32_le(out, *self);
        Ok(())
    }
}

impl WireDecode for u32 {
    open spec fn parse(b: Seq<u8>) -> Option<(u32, nat)> {
        if b.len() >= 4 {
            Some((u32_of_le(b), 4))
        } else {
            None
        }
    }

    proof fn lemma_round_trip(&self, rest: Seq<u8>) {
        lemma_le4_round_trip(*self, rest);
    }

    fn decode(buf: &[u8], at: usize) -> (r: Result<(u32, usize), WireError>) {
        if buf.len() - at < 4 {
            Err(WireError::UnexpectedEnd)
        } else {
            Ok((read_u32_le(buf, at), at + 4))
        }
    }
}

impl WireEncode for i32 {
    open spec fn encodable(&self) -> bool {
        true
    }

    open spec fn wire(&self) -> Seq<u8> {
        le4(*self as u32)
    }

    fn encode(&self, out: &mut Vec<u8>) -> (r: Result<(), WireError>) {
        push_u32_le(out, *self as u32);
        Ok(())
    }
}

impl WireDecode for i32 {
    open spec fn parse(b: Seq<u8>) -> Option<(i32, nat)> {
        if b.len() >= 4 {
            Some((u32_of_le(b) as i32, 4))
        } else {
            None
        }
    }

    proof fn lemma_round_trip(&self, rest: Seq<u8>) {
        lemma_le4_round_trip(*self as u32, rest);
        lemma_i32_bits(*self);
    }

    fn decode(buf: &[u8], at: usize) -> (r: Result<(i32, usize), WireError>) {
        if buf.len() - at < 4 {
            Err(WireError::UnexpectedEnd)
        } else {
            Ok((read_u32_le(buf, at) as i32, at + 4))
        }
    }
}

impl WireEncode for i64 {
    open spec fn encodable(&self) -> bool {
        true
    }

    open spec fn wire(&self) -> Seq<u8> {
        le8(*self as u64)
    }

    fn encode(&self, out: &mut Vec<u8>) -> (r: Result<(), WireError>) {
        push_u64_le(out, *self as u64);
        Ok(())
    }
}

impl WireDecode for i64 {
    open spec fn parse(b: Seq<u8>) -> Option<(i64, nat)> {
        if b.len() >= 8 {
            Some((u64_of_le(b) as i64, 8))
        } else {
            None
        }
    }

    proof fn lemma_round_trip(&self, rest: Seq<u8>) {
        lemma_le8_round_trip(*self as u64, rest);
        lemma_i64_bits(*self);
    }

    fn decode(buf: &[u8], at: usize) -> (r: Result<(i64, usize), WireError>) {
        if buf.len() - at < 8 {
            Err(WireError::UnexpectedEnd)
        } else {
            Ok((read_u64_le(buf, at) as i64, at + 8))
        }
    }
}

/// The constructor id that stands for `b`.
pub open spec fn bool_id(b: bool) -> u32 {
    if b { BOOL_TRUE_ID } else { BOOL_FALSE_ID }
}

impl WireEncode for bool {
    open spec fn encodable(&self) -> bool {
        true
    }

    open spec fn wire(&self) -> Seq<u8> {
        le4(bool_id(*self))
    }

    fn encode(&self, out: &mut Vec<u8>) -> (r: Result<(), WireError>) {
        let id: u32 = if *self { BOOL_TRUE_ID } else { BOOL_FALSE_ID };
        push_u32_le(out, id);
        Ok(())
    }
}

impl WireDecode for bool {
    /// Any four bytes read as a boolean: `true` exactly for the true id.
    open spec fn parse(b: Seq<u8>) -> Option<(bool, nat)> {
        if b.len() >= 4 {
            Some((u32_of_le(b) == BOOL_TRUE_ID, 4))
        } else {
            None
        }
    }

    proof fn lemma_round_trip(&self, rest: Seq<u8>) {
        lemma_le4_round_trip(bool_id(*self), rest);
    }

    fn decode(buf: &[u8], at: usize) -> (r: Result<(bool, usize), WireError>) {
        if buf.len() - at < 4 {
            Err(WireError::UnexpectedEnd)
        } else {
            Ok((read_u32_le(buf, at) == BOOL_TRUE_ID, at + 4))
        }
    }
}

/// Appends the buffer form of `p`: length prefix, payload, zero padding.
fn push_buffer(out: &mut Vec<u8>, p: &[u8])
    requires
        p@.len() < BUFFER_LIMIT,
    ensures
        final(out)@ == old(out)@ + buffer_wire(p@),
{
    let len = p.len();
    let unit: usize;
    if len < 254 {
        out.push(len as u8);
        unit = len + 1;
    } else {
        out.push(254u8);
        out.push((len % 256) as u8);
        out.push(((len / 256) % 256) as u8);
        out.push(((len / 65536) % 256) as u8);
        unit = len + 4;
    }
    let ghost start = old(out)@ + buffer_prefix(len as nat);
    assert(out@ =~= start);
    let mut i: usize = 0;
    while i < len
        invariant
            i <= len,
            len == p@.len(),
            out@ == start + p@.subrange(0, i as int),
        decreases len - i,
    {
        out.push(p[i]);
        i = i + 1;
        assert(out@ =~= start + p@.subrange(0, i as int));
    }
    let pad: usize = (4 - unit % 4) % 4;
    assert(pad == padding_len(len as nat));
    let ghost body = start + p@;
    assert(out@ =~= body + zeros(0));
    let mut k: usize = 0;
    while k < pad
        invariant
            k <= pad,
            out@ == body + zeros(k as nat),
        decreases pad - k,
    {
        out.push(0u8);
        k = k + 1;
        assert(out@ =~= body + zeros(k as nat));
    }
    assert(out@ =~= old(out)@ + buffer_wire(p@));
}

impl WireEncode for Vec<u8> {
    open spec fn encodable(&self) -> bool {
        self@.len() < BUFFER_LIMIT
    }

    open spec fn wire(&self) -> Seq<u8> {
        buffer_wire(self@)
    }

    fn encode(&self, out: &mut Vec<u8>) -> (r: Result<(), WireError>) {
        if self.len() >= BUFFER_LIMIT {
            return Err(WireError::TooLong);
        }
        push_buffer(out, self.as_slice());
        Ok(())
    }
}

/// A boxed value goes on the wire exactly as the value itself.
impl<T: WireEncode> WireEncode for Box<T> {
    open spec fn encodable(&self) -> bool {
        (**self).encodable()
    }

    open spec fn wire(&self) -> Seq<u8> {
        (**self).wire()
    }

    fn encode(&self, out: &mut Vec<u8>) -> (r: Result<(), WireError>) {
        (**self).encode(out)
    }
}

/// Strings go on the wire as the buffer of their UTF-8 bytes.
impl WireEncode for String {
    open spec fn encodable(&self) -> bool {
        encode_utf8(self@).len() < BUFFER_LIMIT
    }

    open spec fn wire(&self) -> Seq<u8> {
        buffer_wire(encode_utf8(self@))
    }

    fn encode(&self, out: &mut Vec<u8>) -> (r: Result<(), WireError>) {
        let b = self.as_str().as_bytes();
        if b.len() >= BUFFER_LIMIT {
            return Err(WireError::TooLong);
        }
        push_buffer(out, b);
        Ok(())
    }
}

/// Any 32-bit value decodes as a boolean: `true` exactly for the true id,
/// `false` for every other value, the false id included.
pub proof fn lemma_bool_decodes_any_word(n: u32, rest: Seq<u8>)
    ensures
        <bool as WireDecode>::parse(le4(n) + rest) == Some((n == BOOL_TRUE_ID, 4nat)),
        <bool as WireDecode>::parse(le4(BOOL_TRUE_ID) + rest) == Some((true, 4nat)),
        <bool as WireDecode>::parse(le4(BOOL_FALSE_ID) + rest) == Some((false, 4nat)),
{
    lemma_le4_round_trip(n, rest);
    lemma_le4_round_trip(BOOL_TRUE_ID, rest);
    lemma_le4_round_trip(BOOL_FALSE_ID, rest);
}

/// The wire forms of `s`, one after another.
pub open spec fn wires<T: WireEncode>(s: Seq<T>) -> Seq<u8>
    decreases s.len(),
{
    if s.len() == 0 {
        Seq::empty()
    } else {
        s[0].wire() + wires(s.drop_first())
    }
}

/// Whether every element of `s` can be encoded.
pub open spec fn all_encodable<T: WireEncode>(s: Seq<T>) -> bool {
    forall|i: int| 0 <= i < s.len() ==> #[trigger] s[i].encodable()
}

/// A vector on the wire: the vector id, the element count, the elements.
pub open spec fn vector_wire<T: WireEncode>(s: Seq<T>) -> Seq<u8> {
    le4(VECTOR_ID) + le4(s.len() as u32) + wires(s)
}

/// `count` values read one after another from the front of `b`, and how many
/// bytes they take.
pub open spec fn parse_items<T: WireDecode>(b: Seq<u8>, count: nat) -> Option<(Seq<T>, nat)>
    decreases count,
{
    if count == 0 {
        Some((Seq::empty(), 0))
    } else {
        match T::parse(b) {
            None => None,
            Some((x, n)) => if n > b.len() {
                None
            } else {
                match parse_items::<T>(b.subrange(n as int, b.len() as int), (count - 1) as nat) {
                    None => None,
                    Some((xs, m)) => Some((seq![x] + xs, n + m)),
                }
            },
        }
    }
}

/// The vector at the front of `b`, and how many bytes it takes; `None` where
/// the vector id is wrong or the bytes end too early.
pub open spec fn parse_vector<T: WireDecode>(b: Seq<u8>) -> Option<(Seq<T>, nat)> {
    if b.len() < 8 || u32_of_le(b) != VECTOR_ID {
        None
    } else {
        match parse_items::<T>(
            b.subrange(8, b.len() as int),
            u32_of_le(b.subrange(4, b.len() as int)) as nat,
        ) {
            None => None,
            Some((xs, m)) => Some((xs, 8 + m)),
        }
    }
}

proof fn lemma_wires_push<T: WireEncode>(s: Seq<T>, x: T)
    ensures
        wires(s.push(x)) == wires(s) + x.wire(),
    decreases s.len(),
{
    if s.len() == 0 {
        assert(s.push(x).drop_first() =~= Seq::<T>::empty());
        assert(s.push(x)[0] == x);
        assert(wires(s.push(x)) == x.wire() + wires(Seq::<T>::empty()));
        assert(wires(s) == Seq::<u8>::empty());
        assert(wires(s.push(x)) =~= wires(s) + x.wire());
    } else {
        assert(s.push(x).drop_first() =~= s.drop_first().push(x));
        assert(s.push(x)[0] == s[0]);
        lemma_wires_push(s.drop_first(), x);
        assert(wires(s.push(x)) == s[0].wire() + wires(s.drop_first().push(x)));
        assert(wires(s) == s[0].wire() + wires(s.drop_first()));
        assert(wires(s.push(x)) =~= wires(s) + x.wire());
    }
}

/// Reading the wire forms of a sequence back gives the sequence.
proof fn lemma_items_round_trip<T: WireDecode>(s: Seq<T>, rest: Seq<u8>)
    requires
        all_encodable(s),
    ensures
        parse_items::<T>(wires(s) + rest, s.len()) == Some((s, wires(s).len())),
    decreases s.len(),
{
    if s.len() > 0 {
        let tail = s.drop_first();
        assert(all_encodable(tail)) by {
            assert forall|i: int| 0 <= i < tail.len() implies #[trigger] tail[i].encodable() by {
                assert(tail[i] == s[i + 1]);
            }
        }
        assert(s[0].encodable());
        s[0].lemma_round_trip(wires(tail) + rest);
        assert(wires(s) + rest =~= s[0].wire() + (wires(tail) + rest));
        let b = wires(s) + rest;
        let n = s[0].wire().len();
        assert(b.subrange(n as int, b.len() as int) =~= wires(tail) + rest);
        lemma_items_round_trip(tail, rest);
        assert(seq![s[0]] + tail =~= s);
    } else {
        assert(s =~= Seq::<T>::empty());
    }
}

/// Reading a vector's wire form back gives its elements, in order.
pub proof fn lemma_vector_round_trip<T: WireDecode>(s: Seq<T>, rest: Seq<u8>)
    requires
        s.len() <= u32::MAX,
        all_encodable(s),
    ensures
        parse_vector::<T>(vector_wire(s) + rest) == Some((s, vector_wire(s).len())),
{
    let b = vector_wire(s) + rest;
    assert(b =~= le4(VECTOR_ID) + (le4(s.len() as u32) + wires(s) + rest));
    lemma_le4_round_trip(VECTOR_ID, le4(s.len() as u32) + wires(s) + rest);
    assert(b.subrange(4, b.len() as int) =~= le4(s.len() as u32) + (wires(s) + rest));
    lemma_le4_round_trip(s.len() as u32, wires(s) + rest);
    assert(b.subrange(8, b.len() as int) =~= wires(s) + rest);
    lemma_items_round_trip(s, rest);
}

impl<T: WireEncode> WireEncode for Vec<T> {
    open spec fn encodable(&self) -> bool {
        self@.len() <= u32::MAX && all_encodable(self@)
    }

    open spec fn wire(&self) -> Seq<u8> {
        vector_wire(self@)
    }

    fn encode(&self, out: &mut Vec<u8>) -> (r: Result<(), WireError>) {
        let n = self.len();
        if n > 0xffff_ffffusize {
            return Err(WireError::TooLong);
        }
        let mut tmp: Vec<u8> = Vec::new();
        push_u32_le(&mut tmp, VECTOR_ID);
        push_u32_le(&mut tmp, n as u32);
        let ghost head = tmp@;
        let mut i: usize = 0;
        while i < n
            invariant
                i <= n,
                n == self@.len(),
                tmp@ == head + wires(self@.subrange(0, i as int)),
                all_encodable(self@.subrange(0, i as int)),
            decreases n - i,
        {
            match self[i].encode(&mut tmp) {
                Ok(()) => {},
                Err(_) => {
                    return Err(WireError::TooLong);
                },
            }
            proof {
                lemma_wires_push(self@.subrange(0, i as int), self@[i as int]);
                assert(self@.subrange(0, i as int).push(self@[i as int]) =~= self@.subrange(
                    0,
                    i + 1,
                ));
            }
            i = i + 1;
        }
        assert(self@.subrange(0, n as int) =~= self@);
        out.append(&mut tmp);
        Ok(())
    }
}

} // verus!

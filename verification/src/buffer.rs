//! The growable output buffer that every render call appends to.
//!
//! The buffer owns a string and a record of how much capacity has been
//! guaranteed so far.  Its observable state is the sequence of characters
//! rendered so far (the view); `length` and `capacity` are reported in
//! bytes, and `length() <= capacity()` holds at every observation point.

use vstd::prelude::*;
use vstd::string::StringExecFns;
use vstd::utf8::encode_scalar;
use vstd::utf8::encode_utf8;

verus! {

/// Relies on `String::push`: appends the given character to the end of the string.
pub assume_specification[ String::push ](s: &mut String, ch: char)
    ensures
        final(s)@ == old(s)@.push(ch),
;

/// Relies on `String::clear`: truncates the string, removing all contents,
/// while keeping its allocated capacity.
pub assume_specification[ String::clear ](s: &mut String)
    ensures
        final(s)@ == Seq::<char>::empty(),
;

/// Relies on `String::reserve`: after the call the string can hold at least
/// `additional` more bytes without reallocating; its contents are unchanged.
pub assume_specification[ String::reserve ](s: &mut String, additional: usize)
    ensures
        final(s)@ == old(s)@,
;

/// The number of bytes in the UTF-8 encoding of a text span.
pub open spec fn byte_len(s: Seq<char>) -> nat {
    encode_utf8(s).len()
}

/// The number of bytes in the UTF-8 encoding of one character.
pub open spec fn char_byte_len(c: char) -> nat {
    if c as u32 <= 0x7F {
        1
    } else if c as u32 <= 0x7FF {
        2
    } else if c as u32 <= 0xFFFF {
        3
    } else {
        4
    }
}

/// The byte length of a one-character span is the character's own
/// encoded width.
pub proof fn lemma_char_byte_len(c: char)
    ensures
        byte_len(seq![c]) == char_byte_len(c),
{
    broadcast use vstd::utf8::char_is_scalar;

    assert(seq![c].drop_first() =~= Seq::<char>::empty());
    assert(encode_utf8(Seq::<char>::empty()) =~= Seq::<u8>::empty());
    assert(encode_utf8(seq![c]) =~= encode_scalar(c as u32) + Seq::<u8>::empty());
    assert(encode_scalar(c as u32) + Seq::<u8>::empty() =~= encode_scalar(c as u32));
}

/// The encoded width of one character, computed without touching the
/// buffer.
fn char_len_utf8(c: char) -> (n: usize)
    ensures
        n == char_byte_len(c),
{
    let u: u32 = c as u32;
    if u <= 0x7F {
        1
    } else if u <= 0x7FF {
        2
    } else if u <= 0xFFFF {
        3
    } else {
        4
    }
}

/// A growable text accumulator.  One buffer instance is shared by a whole
/// render pass: each render call appends to it, and the final text is read
/// back once at the end.
pub struct Buffer {
    data: String,
    len_bytes: usize,
    reserved: usize,
}

impl View for Buffer {
    type V = Seq<char>;

    closed spec fn view(&self) -> Seq<char> {
        self.data@
    }
}

impl Buffer {
    /// The current length of the buffer, in bytes of encoded text.
    pub closed spec fn spec_len(&self) -> nat {
        self.len_bytes as nat
    }

    /// The number of bytes the buffer is guaranteed to be able to hold
    /// without requesting more memory.  Never below the current length.
    pub closed spec fn spec_capacity(&self) -> nat {
        if self.reserved >= self.spec_len() {
            self.reserved as nat
        } else {
            self.spec_len()
        }
    }

    /// Creates an empty buffer.
    pub fn new() -> (b: Buffer)
        ensures
            b@ == Seq::<char>::empty(),
            b.spec_len() == 0,
    {
        Buffer { data: String::new(), len_bytes: 0, reserved: 0 }
    }

    /// The current length in bytes.
    pub fn len(&self) -> (n: usize)
        ensures
            n == self.spec_len(),
    {
        self.len_bytes
    }

    /// The guaranteed capacity in bytes; at least the current length.
    pub fn capacity(&self) -> (n: usize)
        ensures
            n == self.spec_capacity(),
            n >= self.spec_len(),
    {
        let l = self.len();
        if self.reserved >= l {
            self.reserved
        } else {
            l
        }
    }

    /// Requests room for at least `additional` more bytes beyond the current
    /// length.  The contents are untouched; the request is satisfied whenever
    /// the required total fits in `usize`.
    pub fn reserve(&mut self, additional: usize)
        ensures
            final(self)@ == old(self)@,
            final(self).spec_len() == old(self).spec_len(),
            old(self).spec_len() + additional <= usize::MAX ==> final(self).spec_capacity()
                >= old(self).spec_len() + additional,
    {
        let l = self.len();
        match l.checked_add(additional) {
            Some(want) => {
                self.data.reserve(additional);
                if self.reserved < want {
                    self.reserved = want;
                }
            },
            None => {},
        }
    }

    /// Appends a text span verbatim.  The length grows by the span's
    /// byte length whenever the total still fits the machine.
    pub fn push_str(&mut self, s: &str)
        ensures
            final(self)@ == old(self)@ + s@,
            old(self).spec_len() + byte_len(s@) <= usize::MAX ==> final(self).spec_len()
                == old(self).spec_len() + byte_len(s@),
            final(self).spec_len() >= old(self).spec_len(),
    {
        let add: usize = s.len();
        self.data.append(s);
        self.len_bytes = match self.len_bytes.checked_add(add) {
            Some(t) => t,
            None => usize::MAX,
        };
    }

    /// Appends a single character.  The length grows by the character's
    /// encoded width whenever the total still fits the machine.
    pub fn push(&mut self, c: char)
        ensures
            final(self)@ == old(self)@.push(c),
            old(self).spec_len() + char_byte_len(c) <= usize::MAX ==> final(self).spec_len()
                == old(self).spec_len() + char_byte_len(c),
            final(self).spec_len() >= old(self).spec_len(),
    {
        let add: usize = char_len_utf8(c);
        self.data.push(c);
        self.len_bytes = match self.len_bytes.checked_add(add) {
            Some(t) => t,
            None => usize::MAX,
        };
    }

    /// Empties the buffer so it can be reused for the next render pass;
    /// the capacity already guaranteed stays.
    pub fn clear(&mut self)
        ensures
            final(self)@ == Seq::<char>::empty(),
            final(self).spec_len() == 0,
    {
        self.data.clear();
        self.len_bytes = 0;
    }

    /// The accumulated text.
    pub fn as_str(&self) -> (s: &str)
        ensures
            s@ == self@,
    {
        self.data.as_str()
    }
}

/// The buffer never observes a length above its capacity: at every point the
/// guaranteed capacity is at least the number of bytes already written.
pub proof fn lemma_len_le_capacity(b: &Buffer)
    ensures
        b.spec_len() <= b.spec_capacity(),
{
}

/// The concatenation of a sequence of outputs, in order.
pub open spec fn concat_all(ts: Seq<Seq<char>>) -> Seq<char>
    decreases ts.len(),
{
    if ts.len() == 0 {
        Seq::<char>::empty()
    } else {
        concat_all(ts.drop_last()) + ts.last()
    }
}

/// A buffer that starts as `b0` and has the outputs `ts` appended one
/// call at a time, in call order.
pub open spec fn appended(b0: Seq<char>, ts: Seq<Seq<char>>) -> Seq<char>
    decreases ts.len(),
{
    if ts.len() == 0 {
        b0
    } else {
        appended(b0, ts.drop_last()) + ts.last()
    }
}

/// Render calls only append: after any sequence of calls, each adding its
/// own output, the buffer holds what it started with followed by the
/// concatenation of the individual outputs in call order.
pub proof fn lemma_outputs_concat(b0: Seq<char>, ts: Seq<Seq<char>>)
    ensures
        appended(b0, ts) == b0 + concat_all(ts),
    decreases ts.len(),
{
    if ts.len() == 0 {
        assert(b0 + Seq::<char>::empty() =~= b0);
    } else {
        lemma_outputs_concat(b0, ts.drop_last());
        assert((b0 + concat_all(ts.drop_last())) + ts.last() =~= b0 + (concat_all(ts.drop_last())
            + ts.last()));
    }
}

} // verus!

//! The render capability: every renderable type writes its textual form
//! into the shared output buffer, raw or escaped.
//!
//! Each implementation fixes its raw text through the `text` spec
//! function; `render` appends exactly that text, and `render_escaped`
//! appends exactly the escaped form of the same text.  Types whose text
//! can never hold a reserved character (booleans, integers) delegate the
//! escaped path to the raw one.

use crate::buffer::Buffer;
use crate::buffer::byte_len;
use crate::buffer::char_byte_len;
use crate::escape::escape_char;
use crate::escape::escape_to_buf;
use crate::escape::escaped;
use crate::escape::lemma_escaped_identity;
use crate::escape::lemma_escaped_singleton;
use crate::escape::reserved_char;
use crate::integer::int_text;
use crate::integer::lemma_dec_digits_len;
use crate::integer::lemma_int_text_len;
use crate::integer::lemma_int_text_unescaped;
use crate::integer::lemma_pow10_values;
use crate::integer::write_i64;
use crate::integer::write_u64;
use std::path::Path;
use vstd::prelude::*;

verus! {

/// A failure while rendering a value.  None of the built-in renderable
/// types produces one; the kind exists for renderable types whose textual
/// form can fail, and callers must propagate it unchanged.
#[derive(Clone, Copy, Debug, PartialEq, Eq)]
pub struct RenderError;

/// The most bytes the decimal text of each width can take: digits plus an
/// optional sign.
pub const MAX_LEN_U8: usize = 3;

pub const MAX_LEN_U16: usize = 5;

pub const MAX_LEN_U32: usize = 10;

pub const MAX_LEN_U64: usize = 20;

pub const MAX_LEN_I8: usize = 4;

pub const MAX_LEN_I16: usize = 6;

pub const MAX_LEN_I32: usize = 11;

pub const MAX_LEN_I64: usize = 20;

/// Makes sure the buffer has at least `n` spare bytes of guaranteed
/// capacity, requesting more only when the current spare room is short.
/// The contents never change: this step only turns the variable-length
/// number write that follows into a fixed-capacity one.
fn ensure_spare(b: &mut Buffer, n: usize)
    ensures
        final(b)@ == old(b)@,
        final(b).spec_len() == old(b).spec_len(),
        old(b).spec_len() + n <= usize::MAX ==> final(b).spec_capacity() >= old(b).spec_len() + n,
{
    let cap = b.capacity();
    let len = b.len();
    if n > cap - len {
        b.reserve(n);
    }
}

/// Declares `std::path::Path` so that paths can stand in signatures; the
/// value stays opaque, and only `Path::to_string_lossy` is relied on.
#[verifier::external_type_specification]
#[verifier::external_body]
pub struct ExPath(Path);

/// The best-effort textual form of a filesystem path: its text as it
/// stands where the encoding is valid, with invalid sequences replaced.
/// A pure function of the path's bytes.
pub uninterp spec fn path_text(p: &Path) -> Seq<char>;

/// Relies on `Path::to_string_lossy`: the best-effort text of the path,
/// lossy exactly on invalid encoding, depending on the path alone.
#[verifier::external_body]
fn path_to_string(p: &Path) -> (r: String)
    ensures
        r@ == path_text(p),
{
    p.to_string_lossy().into_owned()
}

/// Types which can be rendered into the output buffer.
pub trait Render {
    /// The raw textual form of the value.  Every implementation in this
    /// crate overrides this with its exact text; the default leaves the
    /// text unspecified for implementations added outside it.
    open spec fn text(&self) -> Seq<char> {
        Seq::<char>::empty()
    }

    /// Appends the raw textual form to the buffer.
    fn render(&self, b: &mut Buffer) -> (r: Result<(), RenderError>)
        ensures
            r is Ok ==> final(b)@ == old(b)@ + self.text(),
    ;

    /// Appends the escaped textual form: exactly the escaping policy
    /// applied to the byte sequence `render` would produce.  The default
    /// renders into a fresh scratch buffer, then copies it over while
    /// escaping; an error from `render` short-circuits the copy, leaving
    /// the target buffer as it was, and propagates.
    fn render_escaped(&self, b: &mut Buffer) -> (r: Result<(), RenderError>)
        ensures
            r is Ok ==> final(b)@ == old(b)@ + escaped(self.text()),
            !(r is Ok) ==> final(b)@ == old(b)@,
    {
        let mut tmp = Buffer::new();
        match self.render(&mut tmp) {
            Ok(()) => {
                proof {
                    assert(Seq::<char>::empty() + self.text() =~= self.text());
                }
                escape_to_buf(tmp.as_str(), b);
                Ok(())
            },
            Err(e) => Err(e),
        }
    }
}

impl Render for str {
    open spec fn text(&self) -> Seq<char> {
        self@
    }

    /// Copies the span verbatim.
    fn render(&self, b: &mut Buffer) -> (r: Result<(), RenderError>)
        ensures
            r is Ok,
            old(b).spec_len() + byte_len(self@) <= usize::MAX ==> final(b).spec_len() == old(
                b,
            ).spec_len() + byte_len(self@),
    {
        b.push_str(self);
        Ok(())
    }

    /// Escapes while copying, with no scratch buffer.
    fn render_escaped(&self, b: &mut Buffer) -> (r: Result<(), RenderError>)
        ensures
            r is Ok,
    {
        escape_to_buf(self, b);
        Ok(())
    }
}

impl Render for char {
    open spec fn text(&self) -> Seq<char> {
        seq![*self]
    }

    /// Appends the character itself.
    fn render(&self, b: &mut Buffer) -> (r: Result<(), RenderError>)
        ensures
            r is Ok,
            old(b).spec_len() + char_byte_len(*self) <= usize::MAX ==> final(b).spec_len() == old(
                b,
            ).spec_len() + char_byte_len(*self),
    {
        b.push(*self);
        proof {
            assert(old(b)@.push(*self) =~= old(b)@ + seq![*self]);
        }
        Ok(())
    }

    /// Appends the entity of a reserved character, the character itself
    /// otherwise.
    fn render_escaped(&self, b: &mut Buffer) -> (r: Result<(), RenderError>)
        ensures
            r is Ok,
    {
        proof {
            lemma_escaped_singleton(*self);
        }
        match *self {
            '"' => {
                b.push_str("&quot;");
                proof {
                    reveal_strlit("&quot;");
                    assert("&quot;"@ =~= escape_char(*self));
                }
            },
            '&' => {
                b.push_str("&amp;");
                proof {
                    reveal_strlit("&amp;");
                    assert("&amp;"@ =~= escape_char(*self));
                }
            },
            '<' => {
                b.push_str("&lt;");
                proof {
                    reveal_strlit("&lt;");
                    assert("&lt;"@ =~= escape_char(*self));
                }
            },
            '>' => {
                b.push_str("&gt;");
                proof {
                    reveal_strlit("&gt;");
                    assert("&gt;"@ =~= escape_char(*self));
                }
            },
            _ => {
                b.push(*self);
                proof {
                    assert(old(b)@.push(*self) =~= old(b)@ + escape_char(*self));
                }
            },
        }
        Ok(())
    }
}

impl Render for bool {
    open spec fn text(&self) -> Seq<char> {
        if *self {
            "true"@
        } else {
            "false"@
        }
    }

    /// Appends `true` or `false`.
    fn render(&self, b: &mut Buffer) -> (r: Result<(), RenderError>)
        ensures
            r is Ok,
            old(b).spec_len() + byte_len(self.text()) <= usize::MAX ==> final(b).spec_len() == old(
                b,
            ).spec_len() + byte_len(self.text()),
    {
        let s = if *self {
            "true"
        } else {
            "false"
        };
        b.push_str(s);
        Ok(())
    }

    /// Identical to the raw form: `true` and `false` hold no reserved
    /// character.
    fn render_escaped(&self, b: &mut Buffer) -> (r: Result<(), RenderError>)
        ensures
            r is Ok,
            old(b).spec_len() + byte_len(self.text()) <= usize::MAX ==> final(b).spec_len() == old(
                b,
            ).spec_len() + byte_len(self.text()),
    {
        proof {
            reveal_strlit("true");
            reveal_strlit("false");
            assert forall|i: int| 0 <= i < self.text().len() implies !reserved_char(
                #[trigger] self.text()[i],
            ) by {
                if *self {
                    assert(self.text() == "true"@);
                } else {
                    assert(self.text() == "false"@);
                }
            }
            lemma_escaped_identity(self.text());
        }
        self.render(b)
    }
}

impl Render for u8 {
    open spec fn text(&self) -> Seq<char> {
        int_text(*self as int)
    }

    /// Writes the minimal decimal digits after making the spare capacity
    /// fixed for this width; never more than the declared maximum.
    fn render(&self, b: &mut Buffer) -> (r: Result<(), RenderError>)
        ensures
            r is Ok,
            final(b)@.len() <= old(b)@.len() + MAX_LEN_U8,
            old(b).spec_len() + self.text().len() <= usize::MAX ==> final(b).spec_len() == old(
                b,
            ).spec_len() + self.text().len(),
    {
        proof {
            lemma_pow10_values();
            lemma_dec_digits_len(*self as nat, 3);
        }
        ensure_spare(b, MAX_LEN_U8);
        write_u64(*self as u64, b);
        Ok(())
    }

    /// Identical to the raw form: decimal text holds no reserved
    /// character.
    fn render_escaped(&self, b: &mut Buffer) -> (r: Result<(), RenderError>)
        ensures
            r is Ok,
            final(b)@.len() <= old(b)@.len() + MAX_LEN_U8,
            old(b).spec_len() + self.text().len() <= usize::MAX ==> final(b).spec_len() == old(
                b,
            ).spec_len() + self.text().len(),
    {
        proof {
            lemma_int_text_unescaped(*self as int);
        }
        self.render(b)
    }
}

impl Render for u16 {
    open spec fn text(&self) -> Seq<char> {
        int_text(*self as int)
    }

    /// Writes the minimal decimal digits after making the spare capacity
    /// fixed for this width; never more than the declared maximum.
    fn render(&self, b: &mut Buffer) -> (r: Result<(), RenderError>)
        ensures
            r is Ok,
            final(b)@.len() <= old(b)@.len() + MAX_LEN_U16,
            old(b).spec_len() + self.text().len() <= usize::MAX ==> final(b).spec_len() == old(
                b,
            ).spec_len() + self.text().len(),
    {
        proof {
            lemma_pow10_values();
            lemma_dec_digits_len(*self as nat, 5);
        }
        ensure_spare(b, MAX_LEN_U16);
        write_u64(*self as u64, b);
        Ok(())
    }

    /// Identical to the raw form: decimal text holds no reserved
    /// character.
    fn render_escaped(&self, b: &mut Buffer) -> (r: Result<(), RenderError>)
        ensures
            r is Ok,
            final(b)@.len() <= old(b)@.len() + MAX_LEN_U16,
            old(b).spec_len() + self.text().len() <= usize::MAX ==> final(b).spec_len() == old(
                b,
            ).spec_len() + self.text().len(),
    {
        proof {
            lemma_int_text_unescaped(*self as int);
        }
        self.render(b)
    }
}

impl Render for u32 {
    open spec fn text(&self) -> Seq<char> {
        int_text(*self as int)
    }

    /// Writes the minimal decimal digits after making the spare capacity
    /// fixed for this width; never more than the declared maximum.
    fn render(&self, b: &mut Buffer) -> (r: Result<(), RenderError>)
        ensures
            r is Ok,
            final(b)@.len() <= old(b)@.len() + MAX_LEN_U32,
            old(b).spec_len() + self.text().len() <= usize::MAX ==> final(b).spec_len() == old(
                b,
            ).spec_len() + self.text().len(),
    {
        proof {
            lemma_pow10_values();
            lemma_dec_digits_len(*self as nat, 10);
        }
        ensure_spare(b, MAX_LEN_U32);
        write_u64(*self as u64, b);
        Ok(())
    }

    /// Identical to the raw form: decimal text holds no reserved
    /// character.
    fn render_escaped(&self, b: &mut Buffer) -> (r: Result<(), RenderError>)
        ensures
            r is Ok,
            final(b)@.len() <= old(b)@.len() + MAX_LEN_U32,
            old(b).spec_len() + self.text().len() <= usize::MAX ==> final(b).spec_len() == old(
                b,
            ).spec_len() + self.text().len(),
    {
        proof {
            lemma_int_text_unescaped(*self as int);
        }
        self.render(b)
    }
}

impl Render for u64 {
    open spec fn text(&self) -> Seq<char> {
        int_text(*self as int)
    }

    /// Writes the minimal decimal digits after making the spare capacity
    /// fixed for this width; never more than the declared maximum.
    fn render(&self, b: &mut Buffer) -> (r: Result<(), RenderError>)
        ensures
            r is Ok,
            final(b)@.len() <= old(b)@.len() + MAX_LEN_U64,
            old(b).spec_len() + self.text().len() <= usize::MAX ==> final(b).spec_len() == old(
                b,
            ).spec_len() + self.text().len(),
    {
        proof {
            lemma_pow10_values();
            lemma_dec_digits_len(*self as nat, 20);
        }
        ensure_spare(b, MAX_LEN_U64);
        write_u64(*self as u64, b);
        Ok(())
    }

    /// Identical to the raw form: decimal text holds no reserved
    /// character.
    fn render_escaped(&self, b: &mut Buffer) -> (r: Result<(), RenderError>)
        ensures
            r is Ok,
            final(b)@.len() <= old(b)@.len() + MAX_LEN_U64,
            old(b).spec_len() + self.text().len() <= usize::MAX ==> final(b).spec_len() == old(
                b,
            ).spec_len() + self.text().len(),
    {
        proof {
            lemma_int_text_unescaped(*self as int);
        }
        self.render(b)
    }
}

impl Render for usize {
    open spec fn text(&self) -> Seq<char> {
        int_text(*self as int)
    }

    /// Writes the minimal decimal digits after making the spare capacity
    /// fixed for this width; never more than the declared maximum.
    fn render(&self, b: &mut Buffer) -> (r: Result<(), RenderError>)
        ensures
            r is Ok,
            final(b)@.len() <= old(b)@.len() + MAX_LEN_U64,
            old(b).spec_len() + self.text().len() <= usize::MAX ==> final(b).spec_len() == old(
                b,
            ).spec_len() + self.text().len(),
    {
        proof {
            lemma_pow10_values();
            lemma_dec_digits_len(*self as nat, 20);
        }
        ensure_spare(b, MAX_LEN_U64);
        write_u64(*self as u64, b);
        Ok(())
    }

    /// Identical to the raw form: decimal text holds no reserved
    /// character.
    fn render_escaped(&self, b: &mut Buffer) -> (r: Result<(), RenderError>)
        ensures
            r is Ok,
            final(b)@.len() <= old(b)@.len() + MAX_LEN_U64,
            old(b).spec_len() + self.text().len() <= usize::MAX ==> final(b).spec_len() == old(
                b,
            ).spec_len() + self.text().len(),
    {
        proof {
            lemma_int_text_unescaped(*self as int);
        }
        self.render(b)
    }
}

impl Render for i8 {
    open spec fn text(&self) -> Seq<char> {
        int_text(*self as int)
    }

    /// Writes the minimal decimal digits after making the spare capacity
    /// fixed for this width; never more than the declared maximum.
    fn render(&self, b: &mut Buffer) -> (r: Result<(), RenderError>)
        ensures
            r is Ok,
            final(b)@.len() <= old(b)@.len() + MAX_LEN_I8,
            old(b).spec_len() + self.text().len() <= usize::MAX ==> final(b).spec_len() == old(
                b,
            ).spec_len() + self.text().len(),
    {
        proof {
            lemma_pow10_values();
            lemma_int_text_len(*self as int, 3);
        }
        ensure_spare(b, MAX_LEN_I8);
        write_i64(*self as i64, b);
        Ok(())
    }

    /// Identical to the raw form: decimal text holds no reserved
    /// character.
    fn render_escaped(&self, b: &mut Buffer) -> (r: Result<(), RenderError>)
        ensures
            r is Ok,
            final(b)@.len() <= old(b)@.len() + MAX_LEN_I8,
            old(b).spec_len() + self.text().len() <= usize::MAX ==> final(b).spec_len() == old(
                b,
            ).spec_len() + self.text().len(),
    {
        proof {
            lemma_int_text_unescaped(*self as int);
        }
        self.render(b)
    }
}

impl Render for i16 {
    open spec fn text(&self) -> Seq<char> {
        int_text(*self as int)
    }

    /// Writes the minimal decimal digits after making the spare capacity
    /// fixed for this width; never more than the declared maximum.
    fn render(&self, b: &mut Buffer) -> (r: Result<(), RenderError>)
        ensures
            r is Ok,
            final(b)@.len() <= old(b)@.len() + MAX_LEN_I16,
            old(b).spec_len() + self.text().len() <= usize::MAX ==> final(b).spec_len() == old(
                b,
            ).spec_len() + self.text().len(),
    {
        proof {
            lemma_pow10_values();
            lemma_int_text_len(*self as int, 5);
        }
        ensure_spare(b, MAX_LEN_I16);
        write_i64(*self as i64, b);
        Ok(())
    }

    /// Identical to the raw form: decimal text holds no reserved
    /// character.
    fn render_escaped(&self, b: &mut Buffer) -> (r: Result<(), RenderError>)
        ensures
            r is Ok,
            final(b)@.len() <= old(b)@.len() + MAX_LEN_I16,
            old(b).spec_len() + self.text().len() <= usize::MAX ==> final(b).spec_len() == old(
                b,
            ).spec_len() + self.text().len(),
    {
        proof {
            lemma_int_text_unescaped(*self as int);
        }
        self.render(b)
    }
}

impl Render for i32 {
    open spec fn text(&self) -> Seq<char> {
        int_text(*self as int)
    }

    /// Writes the minimal decimal digits after making the spare capacity
    /// fixed for this width; never more than the declared maximum.
    fn render(&self, b: &mut Buffer) -> (r: Result<(), RenderError>)
        ensures
            r is Ok,
            final(b)@.len() <= old(b)@.len() + MAX_LEN_I32,
            old(b).spec_len() + self.text().len() <= usize::MAX ==> final(b).spec_len() == old(
                b,
            ).spec_len() + self.text().len(),
    {
        proof {
            lemma_pow10_values();
            lemma_int_text_len(*self as int, 10);
        }
        ensure_spare(b, MAX_LEN_I32);
        write_i64(*self as i64, b);
        Ok(())
    }

    /// Identical to the raw form: decimal text holds no reserved
    /// character.
    fn render_escaped(&self, b: &mut Buffer) -> (r: Result<(), RenderError>)
        ensures
            r is Ok,
            final(b)@.len() <= old(b)@.len() + MAX_LEN_I32,
            old(b).spec_len() + self.text().len() <= usize::MAX ==> final(b).spec_len() == old(
                b,
            ).spec_len() + self.text().len(),
    {
        proof {
            lemma_int_text_unescaped(*self as int);
        }
        self.render(b)
    }
}

impl Render for i64 {
    open spec fn text(&self) -> Seq<char> {
        int_text(*self as int)
    }

    /// Writes the minimal decimal digits after making the spare capacity
    /// fixed for this width; never more than the declared maximum.
    fn render(&self, b: &mut Buffer) -> (r: Result<(), RenderError>)
        ensures
            r is Ok,
            final(b)@.len() <= old(b)@.len() + MAX_LEN_I64,
            old(b).spec_len() + self.text().len() <= usize::MAX ==> final(b).spec_len() == old(
                b,
            ).spec_len() + self.text().len(),
    {
        proof {
            lemma_pow10_values();
            lemma_int_text_len(*self as int, 19);
        }
        ensure_spare(b, MAX_LEN_I64);
        write_i64(*self as i64, b);
        Ok(())
    }

    /// Identical to the raw form: decimal text holds no reserved
    /// character.
    fn render_escaped(&self, b: &mut Buffer) -> (r: Result<(), RenderError>)
        ensures
            r is Ok,
            final(b)@.len() <= old(b)@.len() + MAX_LEN_I64,
            old(b).spec_len() + self.text().len() <= usize::MAX ==> final(b).spec_len() == old(
                b,
            ).spec_len() + self.text().len(),
    {
        proof {
            lemma_int_text_unescaped(*self as int);
        }
        self.render(b)
    }
}

impl Render for isize {
    open spec fn text(&self) -> Seq<char> {
        int_text(*self as int)
    }

    /// Writes the minimal decimal digits after making the spare capacity
    /// fixed for this width; never more than the declared maximum.
    fn render(&self, b: &mut Buffer) -> (r: Result<(), RenderError>)
        ensures
            r is Ok,
            final(b)@.len() <= old(b)@.len() + MAX_LEN_I64,
            old(b).spec_len() + self.text().len() <= usize::MAX ==> final(b).spec_len() == old(
                b,
            ).spec_len() + self.text().len(),
    {
        proof {
            lemma_pow10_values();
            lemma_int_text_len(*self as int, 19);
        }
        ensure_spare(b, MAX_LEN_I64);
        write_i64(*self as i64, b);
        Ok(())
    }

    /// Identical to the raw form: decimal text holds no reserved
    /// character.
    fn render_escaped(&self, b: &mut Buffer) -> (r: Result<(), RenderError>)
        ensures
            r is Ok,
            final(b)@.len() <= old(b)@.len() + MAX_LEN_I64,
            old(b).spec_len() + self.text().len() <= usize::MAX ==> final(b).spec_len() == old(
                b,
            ).spec_len() + self.text().len(),
    {
        proof {
            lemma_int_text_unescaped(*self as int);
        }
        self.render(b)
    }
}

impl Render for Path {
    open spec fn text(&self) -> Seq<char> {
        path_text(self)
    }

    /// Converts to the best-effort text form, then appends it.
    fn render(&self, b: &mut Buffer) -> (r: Result<(), RenderError>)
        ensures
            r is Ok,
            old(b).spec_len() + byte_len(self.text()) <= usize::MAX ==> final(b).spec_len() == old(
                b,
            ).spec_len() + byte_len(self.text()),
    {
        let s = path_to_string(self);
        b.push_str(s.as_str());
        Ok(())
    }

    /// Converts, then escapes while copying.
    fn render_escaped(&self, b: &mut Buffer) -> (r: Result<(), RenderError>)
        ensures
            r is Ok,
    {
        let s = path_to_string(self);
        escape_to_buf(s.as_str(), b);
        Ok(())
    }
}

} // verus!

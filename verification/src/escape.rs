//! The fixed escaping policy for buffer output.
//!
//! Exactly four reserved characters are replaced by named entities:
//! `"` by `&quot;`, `&` by `&amp;`, `<` by `&lt;` and `>` by `&gt;`.
//! Every other character, multi-byte ones included, passes through
//! unchanged and in order.

use crate::buffer::Buffer;
use vstd::prelude::*;
use vstd::string::StrSliceExecFns;

verus! {

broadcast use vstd::string::group_string_axioms;

/// Whether the escaping policy replaces this character.
pub open spec fn reserved_char(c: char) -> bool {
    c == '"' || c == '&' || c == '<' || c == '>'
}

/// What the escaping policy emits for one character: the named entity for a
/// reserved character, the character itself for any other.
pub open spec fn escape_char(c: char) -> Seq<char> {
    if c == '"' {
        seq!['&', 'q', 'u', 'o', 't', ';']
    } else if c == '&' {
        seq!['&', 'a', 'm', 'p', ';']
    } else if c == '<' {
        seq!['&', 'l', 't', ';']
    } else if c == '>' {
        seq!['&', 'g', 't', ';']
    } else {
        seq![c]
    }
}

/// The escaped form of a whole text span: each character replaced by what
/// the policy emits for it, in the original order.
pub open spec fn escaped(s: Seq<char>) -> Seq<char>
    decreases s.len(),
{
    if s.len() == 0 {
        Seq::<char>::empty()
    } else {
        escaped(s.drop_last()) + escape_char(s.last())
    }
}

/// Escaping distributes over concatenation: escaping a span piece by piece
/// gives the same text as escaping it whole.
pub proof fn lemma_escaped_concat(a: Seq<char>, b: Seq<char>)
    ensures
        escaped(a + b) == escaped(a) + escaped(b),
    decreases b.len(),
{
    if b.len() == 0 {
        assert(a + b =~= a);
        assert(escaped(a) + escaped(b) =~= escaped(a));
    } else {
        lemma_escaped_concat(a, b.drop_last());
        assert((a + b).drop_last() =~= a + b.drop_last());
        assert((a + b).last() == b.last());
        assert(escaped(a) + (escaped(b.drop_last()) + escape_char(b.last())) =~= (escaped(a)
            + escaped(b.drop_last())) + escape_char(b.last()));
    }
}

/// Escaping a single character emits exactly what the policy says for it.
pub proof fn lemma_escaped_singleton(c: char)
    ensures
        escaped(seq![c]) == escape_char(c),
{
    assert(seq![c].drop_last() =~= Seq::<char>::empty());
    assert(escaped(Seq::<char>::empty()) == Seq::<char>::empty());
    assert(Seq::<char>::empty() + escape_char(c) =~= escape_char(c));
}

/// The escaped form is exactly the per-character emissions concatenated in
/// the original order: every occurrence of a reserved character replaced
/// by its entity, every other character kept unchanged in its place.
pub proof fn lemma_escaped_flat_map(s: Seq<char>)
    ensures
        escaped(s) == s.flat_map(|c: char| escape_char(c)),
    decreases s.len(),
{
    let f = |c: char| escape_char(c);
    if s.len() == 0 {
        assert(s.map_values(f) =~= Seq::<Seq<char>>::empty());
        assert(s.flat_map(f) =~= Seq::<char>::empty());
    } else {
        lemma_escaped_flat_map(s.drop_last());
        s.drop_last().lemma_flat_map_push(f, s.last());
        assert(s.drop_last().push(s.last()) =~= s);
    }
}

/// On a span without reserved characters the escaping policy is the
/// identity: every byte is passed through unchanged.
pub proof fn lemma_escaped_identity(s: Seq<char>)
    requires
        forall|i: int| 0 <= i < s.len() ==> !reserved_char(s[i]),
    ensures
        escaped(s) == s,
    decreases s.len(),
{
    if s.len() == 0 {
        assert(escaped(s) =~= s);
    } else {
        lemma_escaped_identity(s.drop_last());
        assert(!reserved_char(s.last()));
        assert(s.drop_last() + seq![s.last()] =~= s);
    }
}

/// Appends the escaped form of `s` to the buffer.
pub fn escape_to_buf(s: &str, b: &mut Buffer)
    ensures
        final(b)@ == old(b)@ + escaped(s@),
{
    let ghost b0 = b@;
    let n = s.unicode_len();
    let mut i: usize = 0;
    while i < n
        invariant
            n == s@.len(),
            0 <= i <= n,
            b@ == b0 + escaped(s@.take(i as int)),
        decreases n - i,
    {
        proof {
            reveal_strlit("&quot;");
            reveal_strlit("&amp;");
            reveal_strlit("&lt;");
            reveal_strlit("&gt;");
            assert("&quot;"@ =~= seq!['&', 'q', 'u', 'o', 't', ';']);
            assert("&amp;"@ =~= seq!['&', 'a', 'm', 'p', ';']);
            assert("&lt;"@ =~= seq!['&', 'l', 't', ';']);
            assert("&gt;"@ =~= seq!['&', 'g', 't', ';']);
        }
        let c = s.get_char(i);
        let ghost prev = b@;
        if c == '"' {
            b.push_str("&quot;");
            proof {
                assert(b@ =~= prev + escape_char(c));
            }
        } else if c == '&' {
            b.push_str("&amp;");
            proof {
                assert(b@ =~= prev + escape_char(c));
            }
        } else if c == '<' {
            b.push_str("&lt;");
            proof {
                assert(b@ =~= prev + escape_char(c));
            }
        } else if c == '>' {
            b.push_str("&gt;");
            proof {
                assert(b@ =~= prev + escape_char(c));
            }
        } else {
            b.push(c);
            proof {
                assert(b@ =~= prev + escape_char(c));
            }
        }
        proof {
            let t = s@.take(i as int);
            assert(s@.take(i + 1).drop_last() =~= t);
            assert(s@.take(i + 1).last() == s@[i as int]);
            assert(escaped(s@.take(i + 1)) == escaped(t) + escape_char(s@[i as int]));
            assert(b@ =~= b0 + (escaped(t) + escape_char(s@[i as int])));
        }
        i = i + 1;
    }
    proof {
        assert(s@.take(n as int) =~= s@);
    }
}

} // verus!

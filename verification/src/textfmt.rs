//! Output format selection, and byte-budgeted title truncation that always
//! cuts on a character boundary.

use vstd::prelude::*;
use vstd::string::{StringSliceAdditionalSpecFns, StrSliceExecFns, StringExecFns};
use vstd::utf8::{decode_utf8, encode_utf8, is_char_boundary, valid_utf8};

use crate::util::str_eq;

verus! {

broadcast use vstd::utf8::group_utf8_lib, vstd::string::group_string_axioms;

/// The output format a caller selects.
#[derive(Debug, Clone, Copy, PartialEq, Eq, Structural)]
pub enum Format {
    Compact,
    Json,
    Pretty,
}

impl Format {
    /// The format a selector text names, if any.
    pub fn from_str(s: &str) -> (r: Option<Format>)
        ensures
            s@ == "compact"@ ==> r == Some(Format::Compact),
            s@ == "json"@ ==> r == Some(Format::Json),
            s@ == "pretty"@ ==> r == Some(Format::Pretty),
            s@ != "compact"@ && s@ != "json"@ && s@ != "pretty"@ ==> r is None,
    {
        proof {
            reveal_strlit("compact");
            reveal_strlit("json");
            reveal_strlit("pretty");
            assert("compact"@.len() == 7);
            assert("json"@.len() == 4);
            assert("pretty"@.len() == 6);
        }
        if str_eq(s, "compact") {
            Some(Format::Compact)
        } else if str_eq(s, "json") {
            Some(Format::Json)
        } else if str_eq(s, "pretty") {
            Some(Format::Pretty)
        } else {
            None
        }
    }

    /// Whether this is the JSON format.
    pub fn is_json(&self) -> (r: bool)
        ensures
            r == (*self is Json),
    {
        match self {
            Format::Json => true,
            _ => false,
        }
    }
}

/// The largest byte position at most `cap` that is a character boundary.
pub open spec fn trunc_point(bytes: Seq<u8>, cap: int) -> int
    decreases (if cap >= 0 {
        cap
    } else {
        0
    }),
{
    if cap <= 0 {
        0
    } else if is_char_boundary(bytes, cap) {
        cap
    } else {
        trunc_point(bytes, cap - 1)
    }
}

/// `encode_utf8` distributes over concatenation.
proof fn lemma_encode_utf8_concat(a: Seq<char>, b: Seq<char>)
    ensures
        encode_utf8(a + b) == encode_utf8(a) + encode_utf8(b),
    decreases a.len(),
{
    if a.len() == 0 {
        assert(a + b =~= b);
        assert(encode_utf8(a) + encode_utf8(b) =~= encode_utf8(b));
    } else {
        assert((a + b)[0] == a[0]);
        assert((a + b).drop_first() =~= a.drop_first() + b);
        lemma_encode_utf8_concat(a.drop_first(), b);
        assert(encode_utf8(a + b) =~= encode_utf8(a) + encode_utf8(b));
    }
}

/// The ellipsis suffix encodes to three bytes.
proof fn lemma_ellipsis_bytes()
    ensures
        "..."@.len() == 3,
        encode_utf8("..."@).len() == 3,
{
    reveal_strlit("...");
    let e = "..."@;
    assert(e.len() == 3);
    assert(e[0] == '.' && e[1] == '.' && e[2] == '.');
    assert(('.' as u32) == 46);
    lemma_dots_encode(e);
}

/// A sequence of `.` characters encodes one byte per character.
proof fn lemma_dots_encode(s: Seq<char>)
    requires
        forall|i: int| 0 <= i < s.len() ==> s[i] == '.',
    ensures
        encode_utf8(s).len() == s.len(),
    decreases s.len(),
{
    if s.len() > 0 {
        assert(s[0] == '.');
        assert(('.' as u32) == 46);
        assert(vstd::utf8::encode_scalar(s[0] as u32).len() == 1);
        assert forall|i: int| 0 <= i < s.drop_first().len() implies s.drop_first()[i] == '.' by {
            assert(s.drop_first()[i] == s[i + 1]);
        }
        lemma_dots_encode(s.drop_first());
    }
}

/// Truncates a text to fit within `max_len` bytes, appending `...` when it is
/// cut; the cut always lands on a character boundary, so the result is the
/// decoding of the longest byte prefix within the budget, followed by the
/// ellipsis.
pub fn truncate_with_ellipsis(s: &str, max_len: usize) -> (r: String)
    requires
        max_len >= 3,
        s.spec_bytes().len() <= usize::MAX,
    ensures
        s.spec_bytes().len() <= max_len ==> r@ == s@,
        s.spec_bytes().len() > max_len ==> r@ == decode_utf8(
            s.spec_bytes().subrange(0, trunc_point(s.spec_bytes(), max_len - 3)),
        ) + "..."@,
        s.spec_bytes().len() > max_len ==> encode_utf8(r@).len() == trunc_point(
            s.spec_bytes(),
            max_len - 3,
        ) + 3 <= max_len,
{
    let ghost bytes = s.spec_bytes();
    proof {
        assert(valid_utf8(bytes));
    }
    if s.len() <= max_len {
        s.to_owned()
    } else {
        let mut end: usize = max_len - 3;
        while !s.is_char_boundary(end)
            invariant
                bytes == s.spec_bytes(),
                valid_utf8(bytes),
                bytes.len() > max_len,
                max_len >= 3,
                end <= max_len - 3,
                trunc_point(bytes, max_len - 3) == trunc_point(bytes, end as int),
            decreases end,
        {
            proof {
                assert(is_char_boundary(bytes, 0));
                assert(end > 0);
            }
            end = end - 1;
            proof {
                assert(trunc_point(bytes, end + 1) == trunc_point(bytes, end as int));
            }
        }
        proof {
            assert(trunc_point(bytes, end as int) == end) by {
                if end > 0 {
                    assert(is_char_boundary(bytes, end as int));
                }
            }
        }
        let (prefix, _rest) = s.split_at(end);
        let mut r = prefix.to_owned();
        r.append("...");
        proof {
            let pre = bytes.subrange(0, end as int);
            assert(prefix.spec_bytes() =~= pre);
            assert(decode_utf8(encode_utf8(prefix@)) == prefix@);
            assert(r@ == decode_utf8(pre) + "..."@);
            lemma_encode_utf8_concat(prefix@, "..."@);
            lemma_ellipsis_bytes();
            assert(encode_utf8(r@).len() == end + 3);
            assert(trunc_point(bytes, max_len - 3) == end);
            assert(r@ == decode_utf8(bytes.subrange(0, trunc_point(bytes, max_len - 3))) + "..."@);
            assert(encode_utf8(r@).len() == trunc_point(bytes, max_len - 3) + 3);
        }
        r
    }
}

} // verus!

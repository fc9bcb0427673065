//! Tag normalization: a tag's identity is its lower-cased name with
//! spaces replaced by underscores.
use vstd::prelude::*;

use crate::text::lower_chars;

verus! {

/// What `str::to_lowercase` returns for a given character sequence.
/// Named, not spelled out: the Unicode case mapping is a function of
/// the characters alone, and nothing else is assumed of it here beyond
/// the facts stated at [`lowercase`].
pub uninterp spec fn lower_of(s: Seq<char>) -> Seq<char>;

/// Relies on `str::to_lowercase`: the result is the Unicode lowercase
/// mapping of the input, a function of the characters alone. On an
/// ASCII input the mapping is the ASCII one, as its documentation
/// states.
#[verifier::external_body]
fn lowercase(s: &str) -> (r: String)
    ensures
        r@ == lower_of(s@),
        vstd::string::is_ascii(s) ==> r@ == lower_chars(s@),
{
    s.to_lowercase()
}

/// Spaces replaced by underscores; everything else kept.
pub open spec fn underscored(s: Seq<char>) -> Seq<char> {
    s.map_values(|c: char| if c == ' ' { '_' } else { c })
}

/// The normalized form of a tag name: lower-cased, then spaces
/// replaced by underscores.
pub open spec fn normalized(t: Seq<char>) -> Seq<char> {
    underscored(lower_of(t))
}

/// Replace each space by an underscore.
fn replace_spaces(s: &str) -> (r: String)
    ensures
        r@ == underscored(s@),
{
    let n = s.unicode_len();
    let mut out = String::new();
    let mut i: usize = 0;
    while i < n
        invariant
            n == s@.len(),
            i <= n,
            out@ =~= underscored(s@.subrange(0, i as int)),
        decreases n - i,
    {
        let ghost before = out@;
        let c = s.get_char(i);
        if c == ' ' {
            out.append("_");
            proof {
                reveal_strlit("_");
            }
        } else {
            let piece = s.substring_char(i, i + 1);
            out.append(piece);
            proof {
                assert(piece@ =~= seq![s@[i as int]]);
            }
        }
        i += 1;
        proof {
            assert(s@.subrange(0, i as int) =~= s@.subrange(0, i - 1).push(s@[i - 1]));
            assert(out@ =~= underscored(s@.subrange(0, i as int)));
        }
    }
    proof {
        assert(s@.subrange(0, n as int) =~= s@);
    }
    out
}

/// Normalize one tag name.
pub fn normalize_tag(t: &str) -> (r: String)
    ensures
        r@ == normalized(t@),
{
    let lowered = lowercase(t);
    replace_spaces(lowered.as_str())
}

} // verus!

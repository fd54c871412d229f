//! Character-level helpers on strings shared by the extractors.

use vstd::prelude::*;

verus! {

/// The two-character sequence a hyphenated line wrap leaves in page text.
pub open spec fn is_soft_break_at(s: Seq<char>, i: int) -> bool {
    0 <= i && i + 1 < s.len() && s[i] == '-' && s[i + 1] == '\n'
}

/// `s` with every hyphen directly followed by a newline removed, scanning
/// left to right.
pub open spec fn without_soft_breaks(s: Seq<char>) -> Seq<char>
    decreases s.len(),
{
    if s.len() == 0 {
        s
    } else if is_soft_break_at(s, 0) {
        without_soft_breaks(s.skip(2))
    } else {
        seq![s[0]] + without_soft_breaks(s.skip(1))
    }
}

/// The first fragment of a list, or the empty text when there is none.
pub open spec fn first_or_empty(parts: Seq<Seq<char>>) -> Seq<char> {
    if parts.len() == 0 {
        Seq::empty()
    } else {
        parts[0]
    }
}

/// The views of a list of strings.
pub open spec fn texts_view(v: Seq<String>) -> Seq<Seq<char>> {
    v.map_values(|s: String| s@)
}

/// Whether two strings hold the same characters.
pub fn same_text(a: &str, b: &str) -> (r: bool)
    ensures
        r == (a@ == b@),
{
    let n = a.unicode_len();
    if n != b.unicode_len() {
        return false;
    }
    let mut i: usize = 0;
    while i < n
        invariant
            n == a@.len(),
            n == b@.len(),
            i <= n,
            forall|k: int| 0 <= k < i ==> a@[k] == b@[k],
        decreases n - i,
    {
        if a.get_char(i) != b.get_char(i) {
            return false;
        }
        i = i + 1;
    }
    assert(a@ =~= b@);
    true
}

/// A copy of `s` with every hyphen-newline pair removed.
pub fn remove_soft_breaks(s: &str) -> (r: String)
    ensures
        r@ == without_soft_breaks(s@),
{
    let n = s.unicode_len();
    let mut out = String::new();
    let mut i: usize = 0;
    assert(s@.skip(0) =~= s@);
    assert(out@ + without_soft_breaks(s@) =~= without_soft_breaks(s@));
    while i < n
        invariant
            n == s@.len(),
            i <= n,
            without_soft_breaks(s@) == out@ + without_soft_breaks(s@.skip(i as int)),
        decreases n - i,
    {
        let ghost rest = s@.skip(i as int);
        if i + 1 < n && s.get_char(i) == '-' && s.get_char(i + 1) == '\n' {
            assert(rest.skip(2) =~= s@.skip(i + 2));
            i = i + 2;
        } else {
            assert(rest.skip(1) =~= s@.skip(i + 1));
            let piece = s.substring_char(i, i + 1);
            assert(piece@ =~= seq![rest[0]]);
            out.append(piece);
            i = i + 1;
        }
    }
    assert(s@.skip(n as int) =~= Seq::<char>::empty());
    assert(out@ + Seq::<char>::empty() =~= out@);
    out
}

/// A copy of the first fragment, or an empty string when there is none.
pub fn first_text(parts: &Vec<String>) -> (r: String)
    ensures
        r@ == first_or_empty(texts_view(parts@)),
{
    if parts.len() == 0 {
        String::new()
    } else {
        parts[0].clone()
    }
}

} // verus!

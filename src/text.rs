use vstd::prelude::*;
use vstd::string::StrSliceExecFns;
use vstd::string::StringExecFns;

verus! {

/// Whether two strings hold the same characters.
pub fn str_eq(a: &str, b: &str) -> (r: bool)
    ensures
        r == (a@ == b@),
{
    let n = a.unicode_len();
    if n != b.unicode_len() {
        return false;
    }
    let mut i: usize = 0;
    while i < n
        invariant
            n == a@.len(),
            n == b@.len(),
            i <= n,
            forall|j: int| 0 <= j < i ==> a@[j] == b@[j],
        decreases n - i,
    {
        if a.get_char(i) != b.get_char(i) {
            return false;
        }
        i = i + 1;
    }
    assert(a@ =~= b@);
    true
}

/// Whether `sep` occurs in `s` starting at position `i`.
pub open spec fn occurs_at(s: Seq<char>, sep: Seq<char>, i: int) -> bool {
    0 <= i && i + sep.len() <= s.len() && s.subrange(i, i + sep.len()) == sep
}

/// The pieces of `s` between the non-overlapping occurrences of `sep`, scanning from the left;
/// the current piece began at `start` and the scan stands at `i`.
pub open spec fn split_from(s: Seq<char>, sep: Seq<char>, start: int, i: int) -> Seq<Seq<char>>
    decreases s.len() - i,
{
    if sep.len() == 0 || i < 0 || i + sep.len() > s.len() {
        seq![s.subrange(start, s.len() as int)]
    } else if occurs_at(s, sep, i) {
        seq![s.subrange(start, i)] + split_from(s, sep, i + sep.len(), i + sep.len())
    } else {
        split_from(s, sep, start, i + 1)
    }
}

/// The pieces of `s` separated by `sep`.
pub open spec fn split_pieces(s: Seq<char>, sep: Seq<char>) -> Seq<Seq<char>> {
    split_from(s, sep, 0, 0)
}

/// The text of each string.
pub open spec fn views(v: Seq<String>) -> Seq<Seq<char>> {
    v.map_values(|x: String| x@)
}

/// Whether `sep` occurs in `s` at position `i`.
fn occurs_at_exec(s: &str, sep: &str, i: usize) -> (r: bool)
    requires
        i <= s@.len(),
    ensures
        r == occurs_at(s@, sep@, i as int),
{
    let n = s.unicode_len();
    let m = sep.unicode_len();
    if m > n - i {
        return false;
    }
    let mut k: usize = 0;
    while k < m
        invariant
            n == s@.len(),
            m == sep@.len(),
            i + m <= n,
            k <= m,
            forall|j: int| 0 <= j < k ==> s@[i + j] == sep@[j],
        decreases m - k,
    {
        if s.get_char(i + k) != sep.get_char(k) {
            assert(s@.subrange(i as int, i + m)[k as int] != sep@[k as int]);
            return false;
        }
        k = k + 1;
    }
    assert(s@.subrange(i as int, i + m) =~= sep@);
    true
}

/// Splits `s` at each occurrence of `sep`, scanning from the left.
pub fn split_on(s: &str, sep: &str) -> (r: Vec<String>)
    requires
        sep@.len() > 0,
    ensures
        views(r@) == split_pieces(s@, sep@),
{
    let n = s.unicode_len();
    let m = sep.unicode_len();
    let mut pieces: Vec<String> = Vec::new();
    let mut start: usize = 0;
    let mut i: usize = 0;
    while m <= n - i
        invariant
            n == s@.len(),
            m == sep@.len(),
            m > 0,
            start <= i <= n,
            views(pieces@) + split_from(s@, sep@, start as int, i as int) == split_pieces(s@, sep@),
        decreases n - i,
    {
        if occurs_at_exec(s, sep, i) {
            let piece = String::from_str(s.substring_char(start, i));
            proof {
                assert(views(pieces@.push(piece)) =~= views(pieces@).push(piece@));
                assert(split_from(s@, sep@, start as int, i as int) == seq![s@.subrange(start as int, i as int)]
                    + split_from(s@, sep@, (i + m) as int, (i + m) as int));
                assert(views(pieces@).push(piece@) + split_from(s@, sep@, (i + m) as int, (i + m) as int)
                    =~= views(pieces@) + split_from(s@, sep@, start as int, i as int));
            }
            pieces.push(piece);
            i = i + m;
            start = i;
        } else {
            i = i + 1;
        }
    }
    let piece = String::from_str(s.substring_char(start, n));
    proof {
        assert(views(pieces@.push(piece)) =~= views(pieces@).push(piece@));
        assert(views(pieces@).push(piece@) =~= views(pieces@) + split_from(s@, sep@, start as int, i as int));
    }
    pieces.push(piece);
    pieces
}

/// What `str::trim` makes of a text.
pub uninterp spec fn trimmed(s: Seq<char>) -> Seq<char>;

/// Relies on `str::trim`: the text without its leading and trailing whitespace, a function of
/// the characters alone.
#[verifier::external_body]
pub(crate) fn trim(s: &str) -> (r: &str)
    ensures
        r@ == trimmed(s@),
{
    s.trim()
}

} // verus!

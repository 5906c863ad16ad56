//! Byte-level scanning primitives: substring search, trimming,
//! ASCII case folding and quote stripping, each with an exact
//! mathematical description.

use vstd::prelude::*;

verus! {

/// True when `needle` occurs in `hay` starting at index `i`.
pub open spec fn match_at(hay: Seq<u8>, needle: Seq<u8>, i: int) -> bool {
    &&& 0 <= i
    &&& i + needle.len() <= hay.len()
    &&& hay.subrange(i, i + needle.len()) == needle
}

/// Index of the first occurrence of `needle` inside `hay`, if any.
pub open spec fn first_match(hay: Seq<u8>, needle: Seq<u8>) -> Option<int>
    decreases hay.len(),
{
    if needle.len() == 0 {
        Some(0)
    } else if hay.len() < needle.len() {
        None
    } else if hay.subrange(0, needle.len() as int) == needle {
        Some(0)
    } else {
        match first_match(hay.skip(1), needle) {
            None => None,
            Some(i) => Some(i + 1),
        }
    }
}

/// `first_match` returns the least index at which `needle` occurs,
/// and `None` exactly when it occurs nowhere.
pub proof fn lemma_first_match(hay: Seq<u8>, needle: Seq<u8>)
    requires
        needle.len() > 0,
    ensures
        match first_match(hay, needle) {
            Some(i) => match_at(hay, needle, i) && (forall|j: int|
                0 <= j < i ==> !match_at(hay, needle, j)),
            None => forall|j: int| !match_at(hay, needle, j),
        },
    decreases hay.len(),
{
    if hay.len() < needle.len() {
        assert(forall|j: int| !match_at(hay, needle, j));
    } else if hay.subrange(0, needle.len() as int) == needle {
        assert(match_at(hay, needle, 0));
    } else {
        lemma_first_match(hay.skip(1), needle);
        assert forall|j: int| 0 <= j implies match_at(hay.skip(1), needle, j) == match_at(
            hay,
            needle,
            j + 1,
        ) by {
            if j + 1 + needle.len() <= hay.len() {
                assert(hay.skip(1).subrange(j, j + needle.len()) =~= hay.subrange(
                    j + 1,
                    j + 1 + needle.len(),
                ));
            }
        }
        assert(!match_at(hay, needle, 0));
        match first_match(hay.skip(1), needle) {
            None => {
                assert forall|j: int| !match_at(hay, needle, j) by {
                    if 1 <= j {
                        assert(!match_at(hay.skip(1), needle, j - 1));
                    }
                }
            },
            Some(i) => {
                assert(match_at(hay.skip(1), needle, i));
                assert(first_match(hay, needle) == Some(i + 1));
                assert forall|j: int| 0 <= j < i + 1 implies !match_at(hay, needle, j) by {
                    if 1 <= j {
                        assert(!match_at(hay.skip(1), needle, j - 1));
                    }
                }
            },
        }
    }
}

/// A found match always lies inside the haystack.
pub proof fn lemma_first_match_bound(hay: Seq<u8>, needle: Seq<u8>)
    ensures
        first_match(hay, needle) matches Some(i) ==> 0 <= i && i + needle.len() <= hay.len(),
{
    if needle.len() > 0 {
        lemma_first_match(hay, needle);
    }
}

/// If `needle` occurs at `i` and nowhere earlier, then `i` is what
/// `first_match` returns.
pub proof fn lemma_first_match_unique(hay: Seq<u8>, needle: Seq<u8>, i: int)
    requires
        needle.len() > 0,
        match_at(hay, needle, i),
        forall|j: int| 0 <= j < i ==> !match_at(hay, needle, j),
    ensures
        first_match(hay, needle) == Some(i),
{
    lemma_first_match(hay, needle);
    match first_match(hay, needle) {
        None => {
            assert(!match_at(hay, needle, i));
        },
        Some(k) => {
            if k < i {
                assert(!match_at(hay, needle, k));
            }
            if i < k {
                assert(!match_at(hay, needle, i));
            }
        },
    }
}

/// Does `needle` occur in `hay` starting exactly at `at`?
fn bytes_match_at(hay: &[u8], needle: &[u8], at: usize) -> (r: bool)
    requires
        at + needle@.len() <= hay@.len(),
    ensures
        r == match_at(hay@, needle@, at as int),
{
    let n = needle.len();
    let hay_len = hay.len();
    proof {
        assert(hay@.len() <= usize::MAX);
    }
    let mut j: usize = 0;
    while j < n
        invariant
            n == needle@.len(),
            at + n <= hay@.len(),
            hay@.len() <= usize::MAX,
            0 <= j <= n,
            forall|k: int| 0 <= k < j ==> hay@[at + k] == needle@[k],
        decreases n - j,
    {
        if hay[at + j] != needle[j] {
            proof {
                assert(hay@.subrange(at as int, at + needle@.len())[j as int] == hay@[at + j]);
            }
            return false;
        }
        j += 1;
    }
    proof {
        assert(hay@.subrange(at as int, at + needle@.len()) =~= needle@);
    }
    true
}

/// First occurrence of `needle` inside `hay`, scanning left to right.
/// An empty needle matches at the front.
pub fn find_subsequence(hay: &[u8], needle: &[u8]) -> (r: Option<usize>)
    ensures
        match r {
            Some(i) => first_match(hay@, needle@) == Some(i as int),
            None => first_match(hay@, needle@) is None,
        },
{
    let n = needle.len();
    if n == 0 {
        return Some(0);
    }
    if hay.len() < n {
        proof {
            lemma_first_match(hay@, needle@);
            if first_match(hay@, needle@) is Some {
                let i = first_match(hay@, needle@)->Some_0;
                assert(!match_at(hay@, needle@, i));
            }
        }
        return None;
    }
    let end = hay.len() - n;
    let mut i: usize = 0;
    while i <= end
        invariant
            n == needle@.len(),
            n > 0,
            end + n == hay@.len(),
            hay@.len() <= usize::MAX,
            0 <= i <= end + 1,
            forall|j: int| 0 <= j < i ==> !match_at(hay@, needle@, j),
        decreases end + 1 - i,
    {
        if bytes_match_at(hay, needle, i) {
            proof {
                lemma_first_match_unique(hay@, needle@, i as int);
            }
            return Some(i);
        }
        i += 1;
    }
    proof {
        lemma_first_match(hay@, needle@);
        if first_match(hay@, needle@) is Some {
            let k = first_match(hay@, needle@)->Some_0;
            assert(match_at(hay@, needle@, k));
            assert(k <= end);
        }
    }
    None
}

/// The whitespace bytes stripped by trimming: space and horizontal tab.
pub open spec fn is_ws(b: u8) -> bool {
    b == 32 || b == 9
}

/// `s` without leading whitespace.
pub open spec fn trim_start_spec(s: Seq<u8>) -> Seq<u8>
    decreases s.len(),
{
    if s.len() > 0 && is_ws(s[0]) {
        trim_start_spec(s.skip(1))
    } else {
        s
    }
}

/// `s` without trailing whitespace.
pub open spec fn trim_end_spec(s: Seq<u8>) -> Seq<u8>
    decreases s.len(),
{
    if s.len() > 0 && is_ws(s[s.len() - 1]) {
        trim_end_spec(s.take(s.len() - 1))
    } else {
        s
    }
}

/// `s` without leading or trailing whitespace.
pub open spec fn trim_spec(s: Seq<u8>) -> Seq<u8> {
    trim_end_spec(trim_start_spec(s))
}

proof fn lemma_trim_start_at(s: Seq<u8>, k: int)
    requires
        0 <= k <= s.len(),
        forall|j: int| 0 <= j < k ==> is_ws(s[j]),
        k == s.len() || !is_ws(s[k]),
    ensures
        trim_start_spec(s) == s.skip(k),
    decreases k,
{
    if k == 0 {
        assert(s.skip(0) =~= s);
    } else {
        assert(is_ws(s[0]));
        lemma_trim_start_at(s.skip(1), k - 1);
        assert(s.skip(1).skip(k - 1) =~= s.skip(k));
    }
}

proof fn lemma_trim_end_at(s: Seq<u8>, k: int)
    requires
        0 <= k <= s.len(),
        forall|j: int| k <= j < s.len() ==> is_ws(s[j]),
        k == 0 || !is_ws(s[k - 1]),
    ensures
        trim_end_spec(s) == s.take(k),
    decreases s.len() - k,
{
    if k == s.len() {
        assert(s.take(k) =~= s);
        if s.len() > 0 {
            assert(!is_ws(s[s.len() - 1]));
        }
    } else {
        assert(is_ws(s[s.len() - 1]));
        lemma_trim_end_at(s.take(s.len() - 1), k);
        assert(s.take(s.len() - 1).take(k) =~= s.take(k));
    }
}

/// Copy of `s` with surrounding whitespace removed.
pub fn trim_bytes(s: &[u8]) -> (r: Vec<u8>)
    ensures
        r@ == trim_spec(s@),
{
    let len = s.len();
    let mut start: usize = 0;
    while start < len && (s[start] == 32 || s[start] == 9)
        invariant
            len == s@.len(),
            0 <= start <= len,
            forall|j: int| 0 <= j < start ==> is_ws(s@[j]),
        decreases len - start,
    {
        start += 1;
    }
    proof {
        lemma_trim_start_at(s@, start as int);
    }
    let mut end: usize = len;
    while end > start && (s[end - 1] == 32 || s[end - 1] == 9)
        invariant
            len == s@.len(),
            start <= end <= len,
            forall|j: int| end <= j < len ==> is_ws(s@[j]),
        decreases end,
    {
        end -= 1;
    }
    proof {
        let t = s@.skip(start as int);
        lemma_trim_end_at(t, end - start);
        assert(t.take(end - start) =~= s@.subrange(start as int, end as int));
    }
    vstd::slice::slice_to_vec(vstd::slice::slice_subrange(s, start, end))
}

/// ASCII lower-casing of a single byte.
pub open spec fn lower_byte(b: u8) -> u8 {
    if 65 <= b && b <= 90 {
        (b + 32) as u8
    } else {
        b
    }
}

/// ASCII lower-casing of a byte sequence.
pub open spec fn lower_spec(s: Seq<u8>) -> Seq<u8> {
    s.map(|i: int, b: u8| lower_byte(b))
}

/// Copy of `s` with ASCII letters lower-cased.
pub fn lower_bytes(s: &[u8]) -> (r: Vec<u8>)
    ensures
        r@ == lower_spec(s@),
{
    let mut r: Vec<u8> = Vec::new();
    let mut i: usize = 0;
    while i < s.len()
        invariant
            0 <= i <= s@.len(),
            r@.len() == i,
            forall|k: int| 0 <= k < i ==> r@[k] == lower_byte(s@[k]),
        decreases s@.len() - i,
    {
        let b = s[i];
        if 65 <= b && b <= 90 {
            r.push(b + 32);
        } else {
            r.push(b);
        }
        i += 1;
    }
    proof {
        assert(r@ =~= lower_spec(s@));
    }
    r
}

/// `s` with one pair of surrounding double quotes removed, when both
/// are present; otherwise `s` unchanged.
pub open spec fn strip_quotes_spec(s: Seq<u8>) -> Seq<u8> {
    if s.len() >= 2 && s[0] == 34 && s[s.len() - 1] == 34 {
        s.subrange(1, s.len() - 1)
    } else {
        s
    }
}

/// Copy of `s` with one pair of surrounding double quotes removed.
pub fn strip_quotes(s: &[u8]) -> (r: Vec<u8>)
    ensures
        r@ == strip_quotes_spec(s@),
{
    if s.len() >= 2 && s[0] == 34 && s[s.len() - 1] == 34 {
        vstd::slice::slice_to_vec(vstd::slice::slice_subrange(s, 1, s.len() - 1))
    } else {
        vstd::slice::slice_to_vec(s)
    }
}

/// Are the two byte sequences identical?
pub fn eq_bytes(a: &[u8], b: &[u8]) -> (r: bool)
    ensures
        r == (a@ == b@),
{
    if a.len() != b.len() {
        proof {
            assert(a@ != b@);
        }
        return false;
    }
    let mut i: usize = 0;
    while i < a.len()
        invariant
            a@.len() == b@.len(),
            0 <= i <= a@.len(),
            forall|k: int| 0 <= k < i ==> a@[k] == b@[k],
        decreases a@.len() - i,
    {
        if a[i] != b[i] {
            return false;
        }
        i += 1;
    }
    proof {
        assert(a@ =~= b@);
    }
    true
}

} // verus!

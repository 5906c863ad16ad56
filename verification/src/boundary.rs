//! Boundary extraction: derives the delimiter byte sequence from a
//! declared content-type string.
//!
//! The content type must begin with `multipart/` (case-insensitively).
//! Its `;`-separated parameter segments are scanned for a `boundary=`
//! parameter (key compared case-insensitively); the value is trimmed
//! and stripped of one pair of surrounding double quotes.  The
//! delimiter is `"--" + value`; an empty value, or no such parameter,
//! fails with `MissingBoundary`.

use vstd::prelude::*;

use crate::errors::MultipartError;
use crate::scan::{
    eq_bytes, find_subsequence, first_match, lemma_first_match, lower_bytes, lower_spec,
    strip_quotes, strip_quotes_spec, trim_bytes, trim_spec,
};

verus! {

/// The bytes of `"multipart/"`.
pub open spec fn multipart_prefix() -> Seq<u8> {
    seq![109u8, 117u8, 108u8, 116u8, 105u8, 112u8, 97u8, 114u8, 116u8, 47u8]
}

/// The bytes of `"boundary"`.
pub open spec fn boundary_key() -> Seq<u8> {
    seq![98u8, 111u8, 117u8, 110u8, 100u8, 97u8, 114u8, 121u8]
}

/// The bytes of `"--"`.
pub open spec fn dash_dash() -> Seq<u8> {
    seq![45u8, 45u8]
}

/// Does `s` begin with `p`, compared ASCII case-insensitively?
/// (`p` is given already lower-cased.)
pub open spec fn ci_has_prefix(s: Seq<u8>, p: Seq<u8>) -> bool {
    s.len() >= p.len() && lower_spec(s.take(p.len() as int)) == p
}

/// The boundary value carried by one parameter segment: `Some(value)`
/// when the trimmed segment reads `boundary=<value>` with the key
/// compared case-insensitively, the value trimmed and unquoted.
pub open spec fn seg_boundary_value(seg: Seq<u8>) -> Option<Seq<u8>> {
    let t = trim_spec(seg);
    match first_match(t, seq![61u8]) {
        None => None,
        Some(i) => if 0 <= i && i + 1 <= t.len() {
            if lower_spec(trim_spec(t.take(i))) == boundary_key() {
                Some(strip_quotes_spec(trim_spec(t.skip(i + 1))))
            } else {
                None
            }
        } else {
            None
        },
    }
}

/// The value of the first `boundary=` parameter among the
/// `;`-separated segments of `s`, if any segment carries one.
pub open spec fn scan_boundary_param(s: Seq<u8>) -> Option<Seq<u8>>
    decreases s.len(),
{
    match first_match(s, seq![59u8]) {
        None => seg_boundary_value(s),
        Some(i) => if 0 <= i && i + 1 <= s.len() {
            match seg_boundary_value(s.take(i)) {
                Some(v) => Some(v),
                None => scan_boundary_param(s.skip(i + 1)),
            }
        } else {
            seg_boundary_value(s)
        },
    }
}

/// What boundary derivation yields for a declared content type:
/// the full delimiter `"--" + value`, or the construction error.
pub open spec fn extract_boundary(ct: Seq<u8>) -> Result<Seq<u8>, MultipartError> {
    if !ci_has_prefix(ct, multipart_prefix()) {
        Err(MultipartError::InvalidContentType)
    } else {
        match scan_boundary_param(ct) {
            None => Err(MultipartError::MissingBoundary),
            Some(v) => if v.len() == 0 {
                Err(MultipartError::MissingBoundary)
            } else {
                Ok(dash_dash() + v)
            },
        }
    }
}

fn multipart_prefix_vec() -> (r: Vec<u8>)
    ensures
        r@ == multipart_prefix(),
{
    let mut v: Vec<u8> = Vec::new();
    v.push(109);
    v.push(117);
    v.push(108);
    v.push(116);
    v.push(105);
    v.push(112);
    v.push(97);
    v.push(114);
    v.push(116);
    v.push(47);
    proof {
        assert(v@ =~= multipart_prefix());
    }
    v
}

fn boundary_key_vec() -> (r: Vec<u8>)
    ensures
        r@ == boundary_key(),
{
    let mut v: Vec<u8> = Vec::new();
    v.push(98);
    v.push(111);
    v.push(117);
    v.push(110);
    v.push(100);
    v.push(97);
    v.push(114);
    v.push(121);
    proof {
        assert(v@ =~= boundary_key());
    }
    v
}

fn ci_prefix(s: &[u8], p: &Vec<u8>) -> (r: bool)
    ensures
        r == ci_has_prefix(s@, p@),
{
    let plen = p.len();
    if s.len() < plen {
        return false;
    }
    let mut i: usize = 0;
    while i < plen
        invariant
            plen == p@.len(),
            s@.len() >= plen,
            s@.len() <= usize::MAX,
            0 <= i <= plen,
            forall|k: int| 0 <= k < i ==> crate::scan::lower_byte(s@[k]) == p@[k],
        decreases plen - i,
    {
        let b = s[i];
        let lb = if 65 <= b && b <= 90 {
            b + 32
        } else {
            b
        };
        if lb != p[i] {
            proof {
                assert(lower_spec(s@.take(p@.len() as int))[i as int] == crate::scan::lower_byte(
                    s@[i as int],
                ));
            }
            return false;
        }
        i += 1;
    }
    proof {
        assert(lower_spec(s@.take(p@.len() as int)) =~= p@);
    }
    true
}

fn segment_boundary_value(seg: &[u8], bkey: &Vec<u8>) -> (r: Option<Vec<u8>>)
    requires
        bkey@ == boundary_key(),
    ensures
        match r {
            Some(v) => seg_boundary_value(seg@) == Some(v@),
            None => seg_boundary_value(seg@) is None,
        },
{
    let t = trim_bytes(seg);
    let mut eq_needle: Vec<u8> = Vec::new();
    eq_needle.push(61);
    proof {
        assert(eq_needle@ =~= seq![61u8]);
    }
    match find_subsequence(t.as_slice(), eq_needle.as_slice()) {
        None => None,
        Some(i) => {
            proof {
                lemma_first_match(t@, seq![61u8]);
            }
            let before = vstd::slice::slice_subrange(t.as_slice(), 0, i);
            let key = lower_bytes(trim_bytes(before).as_slice());
            proof {
                assert(t@.subrange(0, i as int) =~= t@.take(i as int));
            }
            if eq_bytes(key.as_slice(), bkey.as_slice()) {
                let tlen = t.len();
                proof {
                    assert(crate::scan::match_at(t@, seq![61u8], i as int));
                    assert(i + 1 <= tlen);
                }
                let after = vstd::slice::slice_subrange(t.as_slice(), i + 1, tlen);
                proof {
                    assert(t@.subrange(i + 1, t@.len() as int) =~= t@.skip(i + 1));
                }
                Some(strip_quotes(trim_bytes(after).as_slice()))
            } else {
                None
            }
        },
    }
}

fn scan_param(rest: &[u8], bkey: &Vec<u8>, semi: &Vec<u8>) -> (r: Option<Vec<u8>>)
    requires
        bkey@ == boundary_key(),
        semi@ == seq![59u8],
    ensures
        match r {
            Some(v) => scan_boundary_param(rest@) == Some(v@),
            None => scan_boundary_param(rest@) is None,
        },
    decreases rest@.len(),
{
    match find_subsequence(rest, semi.as_slice()) {
        None => segment_boundary_value(rest, bkey),
        Some(i) => {
            proof {
                lemma_first_match(rest@, seq![59u8]);
            }
            let seg = vstd::slice::slice_subrange(rest, 0, i);
            proof {
                assert(rest@.subrange(0, i as int) =~= rest@.take(i as int));
            }
            match segment_boundary_value(seg, bkey) {
                Some(v) => Some(v),
                None => {
                    let rlen = rest.len();
                    proof {
                        assert(crate::scan::match_at(rest@, seq![59u8], i as int));
                        assert(i + 1 <= rlen);
                    }
                    let tail = vstd::slice::slice_subrange(rest, i + 1, rlen);
                    proof {
                        assert(rest@.subrange(i + 1, rest@.len() as int) =~= rest@.skip(i + 1));
                    }
                    scan_param(tail, bkey, semi)
                },
            }
        },
    }
}

/// Derive the delimiter bytes (`"--" + boundary value`) from a
/// declared content type, or report why construction must fail.
pub fn parse_boundary(content_type: &[u8]) -> (r: Result<Vec<u8>, MultipartError>)
    ensures
        match r {
            Ok(v) => extract_boundary(content_type@) == Ok::<Seq<u8>, MultipartError>(v@),
            Err(e) => extract_boundary(content_type@) == Err::<Seq<u8>, MultipartError>(e),
        },
{
    let prefix = multipart_prefix_vec();
    if !ci_prefix(content_type, &prefix) {
        return Err(MultipartError::InvalidContentType);
    }
    let bkey = boundary_key_vec();
    let mut semi: Vec<u8> = Vec::new();
    semi.push(59);
    proof {
        assert(semi@ =~= seq![59u8]);
    }
    match scan_param(content_type, &bkey, &semi) {
        None => Err(MultipartError::MissingBoundary),
        Some(v) => {
            if v.len() == 0 {
                Err(MultipartError::MissingBoundary)
            } else {
                let mut d: Vec<u8> = Vec::new();
                d.push(45);
                d.push(45);
                let mut k: usize = 0;
                while k < v.len()
                    invariant
                        0 <= k <= v@.len(),
                        d@.len() == 2 + k,
                        d@[0] == 45u8,
                        d@[1] == 45u8,
                        forall|j: int| 0 <= j < k ==> d@[2 + j] == v@[j],
                    decreases v@.len() - k,
                {
                    d.push(v[k]);
                    k += 1;
                }
                proof {
                    assert(d@ =~= dash_dash() + v@);
                }
                Ok(d)
            }
        },
    }
}

} // verus!

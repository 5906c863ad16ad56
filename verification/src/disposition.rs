//! Content-Disposition tokenization: splits a disposition value into
//! `;`-separated parameters, each a `key=value` pair or a bare flag.
//!
//! Keys and values are trimmed; one pair of surrounding double quotes
//! is stripped from a value; an empty value is kept as a flag.  When
//! a key is assigned twice, the later assignment wins.

use vstd::prelude::*;

use crate::scan::{
    eq_bytes, find_subsequence, first_match, lemma_first_match, match_at, strip_quotes,
    strip_quotes_spec, trim_bytes, trim_spec,
};

verus! {

/// One parameter segment as a `(key, optional value)` pair; a blank
/// segment carries nothing.
pub open spec fn seg_param(seg: Seq<u8>) -> Option<(Seq<u8>, Option<Seq<u8>>)> {
    let t = trim_spec(seg);
    if t.len() == 0 {
        None
    } else {
        match first_match(t, seq![61u8]) {
            None => Some((t, None)),
            Some(i) => if 0 <= i && i + 1 <= t.len() {
                let key = trim_spec(t.take(i));
                let v = strip_quotes_spec(trim_spec(t.skip(i + 1)));
                Some((key, if v.len() == 0 {
                    None
                } else {
                    Some(v)
                }))
            } else {
                Some((t, None))
            },
        }
    }
}

/// The value segment `seg` assigns to key `k`, given the value `cur`
/// assigned by earlier segments.
pub open spec fn seg_update(
    seg: Seq<u8>,
    k: Seq<u8>,
    cur: Option<Option<Seq<u8>>>,
) -> Option<Option<Seq<u8>>> {
    match seg_param(seg) {
        None => cur,
        Some(p) => if p.0 == k {
            Some(p.1)
        } else {
            cur
        },
    }
}

/// The value assigned to key `k` after every segment of `s` is
/// applied in order, starting from `cur`.
pub open spec fn disp_lookup_from(
    s: Seq<u8>,
    k: Seq<u8>,
    cur: Option<Option<Seq<u8>>>,
) -> Option<Option<Seq<u8>>>
    decreases s.len(),
{
    match first_match(s, seq![59u8]) {
        None => seg_update(s, k, cur),
        Some(i) => if 0 <= i && i + 1 <= s.len() {
            disp_lookup_from(s.skip(i + 1), k, seg_update(s.take(i), k, cur))
        } else {
            seg_update(s, k, cur)
        },
    }
}

/// What the disposition text `s` assigns to key `k`: `None` when the
/// key never appears, `Some(None)` for a flag or empty value, and
/// `Some(Some(v))` for value `v`.
pub open spec fn disp_lookup(s: Seq<u8>, k: Seq<u8>) -> Option<Option<Seq<u8>>> {
    disp_lookup_from(s, k, None)
}

/// The value of the first entry of `m` stored under key `k`.
pub open spec fn param_lookup(
    m: Seq<(Seq<u8>, Option<Seq<u8>>)>,
    k: Seq<u8>,
) -> Option<Option<Seq<u8>>>
    decreases m.len(),
{
    if m.len() == 0 {
        None
    } else if m[0].0 == k {
        Some(m[0].1)
    } else {
        param_lookup(m.drop_first(), k)
    }
}

/// View of an optional byte vector.
pub open spec fn opt_view(v: Option<Vec<u8>>) -> Option<Seq<u8>> {
    match v {
        Some(x) => Some(x@),
        None => None,
    }
}

proof fn lemma_param_lookup_update(
    m: Seq<(Seq<u8>, Option<Seq<u8>>)>,
    idx: int,
    key: Seq<u8>,
    v: Option<Seq<u8>>,
)
    requires
        0 <= idx < m.len(),
        m[idx].0 == key,
        forall|j: int| 0 <= j < idx ==> m[j].0 != key,
    ensures
        forall|k: Seq<u8>| #[trigger] param_lookup(m.update(idx, (key, v)), k) == (if k == key {
            Some(v)
        } else {
            param_lookup(m, k)
        }),
    decreases idx,
{
    let m2 = m.update(idx, (key, v));
    if idx == 0 {
        assert forall|k: Seq<u8>| #[trigger] param_lookup(m2, k) == (if k == key {
            Some(v)
        } else {
            param_lookup(m, k)
        }) by {
            assert(m2[0] == (key, v));
            if k != key {
                assert(m2.drop_first() =~= m.drop_first());
            }
        }
    } else {
        lemma_param_lookup_update(m.drop_first(), idx - 1, key, v);
        assert forall|k: Seq<u8>| #[trigger] param_lookup(m2, k) == (if k == key {
            Some(v)
        } else {
            param_lookup(m, k)
        }) by {
            assert(m2[0] == m[0]);
            assert(m[0].0 != key);
            assert(m2.drop_first() =~= m.drop_first().update(idx - 1, (key, v)));
            assert(param_lookup(m.drop_first().update(idx - 1, (key, v)), k) == (if k == key {
                Some(v)
            } else {
                param_lookup(m.drop_first(), k)
            }));
        }
    }
}

proof fn lemma_param_lookup_push(m: Seq<(Seq<u8>, Option<Seq<u8>>)>, key: Seq<u8>, v: Option<Seq<u8>>)
    requires
        forall|j: int| 0 <= j < m.len() ==> m[j].0 != key,
    ensures
        forall|k: Seq<u8>| #[trigger] param_lookup(m.push((key, v)), k) == (if k == key {
            Some(v)
        } else {
            param_lookup(m, k)
        }),
    decreases m.len(),
{
    let m2 = m.push((key, v));
    if m.len() == 0 {
        assert forall|k: Seq<u8>| #[trigger] param_lookup(m2, k) == (if k == key {
            Some(v)
        } else {
            param_lookup(m, k)
        }) by {
            assert(m2[0] == (key, v));
            if k != key {
                assert(m2.drop_first() =~= Seq::<(Seq<u8>, Option<Seq<u8>>)>::empty());
                assert(param_lookup(Seq::<(Seq<u8>, Option<Seq<u8>>)>::empty(), k) is None);
            }
        }
    } else {
        lemma_param_lookup_push(m.drop_first(), key, v);
        assert forall|k: Seq<u8>| #[trigger] param_lookup(m2, k) == (if k == key {
            Some(v)
        } else {
            param_lookup(m, k)
        }) by {
            assert(m2[0] == m[0]);
            assert(m[0].0 != key);
            assert(m2.drop_first() =~= m.drop_first().push((key, v)));
            assert(param_lookup(m.drop_first().push((key, v)), k) == (if k == key {
                Some(v)
            } else {
                param_lookup(m.drop_first(), k)
            }));
        }
    }
}

/// The parameters of one Content-Disposition value, in order of first
/// appearance, each key stored once with its latest value.
pub struct DispositionParams {
    entries: Vec<(Vec<u8>, Option<Vec<u8>>)>,
}

impl View for DispositionParams {
    type V = Seq<(Seq<u8>, Option<Seq<u8>>)>;

    closed spec fn view(&self) -> Seq<(Seq<u8>, Option<Seq<u8>>)> {
        self.entries@.map(|i: int, e: (Vec<u8>, Option<Vec<u8>>)| (e.0@, opt_view(e.1)))
    }
}

impl DispositionParams {
    /// An empty parameter map.
    pub fn new() -> (r: DispositionParams)
        ensures
            r@ == Seq::<(Seq<u8>, Option<Seq<u8>>)>::empty(),
    {
        let r = DispositionParams { entries: Vec::new() };
        proof {
            assert(r@ =~= Seq::<(Seq<u8>, Option<Seq<u8>>)>::empty());
        }
        r
    }

    /// How many parameters are stored.
    pub fn len(&self) -> (r: usize)
        ensures
            r == self@.len(),
    {
        self.entries.len()
    }

    fn find_key_index(&self, key: &[u8]) -> (r: Option<usize>)
        ensures
            match r {
                Some(i) => 0 <= i < self@.len() && self@[i as int].0 == key@ && (forall|j: int|
                    0 <= j < i ==> self@[j].0 != key@),
                None => forall|j: int| 0 <= j < self@.len() ==> self@[j].0 != key@,
            },
    {
        let n = self.entries.len();
        let mut i: usize = 0;
        while i < n
            invariant
                n == self.entries@.len(),
                0 <= i <= n,
                forall|j: int| 0 <= j < i ==> self@[j].0 != key@,
            decreases n - i,
        {
            if eq_bytes(self.entries[i].0.as_slice(), key) {
                proof {
                    assert(self@[i as int].0 == key@);
                }
                return Some(i);
            }
            i += 1;
        }
        None
    }

    fn upsert(&mut self, key: Vec<u8>, val: Option<Vec<u8>>)
        ensures
            forall|k: Seq<u8>| #[trigger] param_lookup(final(self)@, k) == (if k == key@ {
                Some(opt_view(val))
            } else {
                param_lookup(old(self)@, k)
            }),
    {
        let ghost kv = (key@, opt_view(val));
        match self.find_key_index(key.as_slice()) {
            Some(i) => {
                self.entries.set(i, (key, val));
                proof {
                    assert(self@ =~= old(self)@.update(i as int, kv));
                    lemma_param_lookup_update(old(self)@, i as int, kv.0, kv.1);
                }
            },
            None => {
                self.entries.push((key, val));
                proof {
                    assert(self@ =~= old(self)@.push(kv));
                    lemma_param_lookup_push(old(self)@, kv.0, kv.1);
                }
            },
        }
    }

    /// The value stored under `key`: `None` when absent, `Some(None)`
    /// for a flag without value, `Some(Some(v))` for value `v`.
    pub fn get(&self, key: &[u8]) -> (r: Option<Option<Vec<u8>>>)
        ensures
            match r {
                Some(v) => param_lookup(self@, key@) == Some(opt_view(v)),
                None => param_lookup(self@, key@) is None,
            },
    {
        let n = self.entries.len();
        proof {
            assert(self@.skip(0) =~= self@);
        }
        let mut i: usize = 0;
        while i < n
            invariant
                n == self.entries@.len(),
                0 <= i <= n,
                param_lookup(self@, key@) == param_lookup(self@.skip(i as int), key@),
            decreases n - i,
        {
            proof {
                assert(self@.skip(i as int)[0] == self@[i as int]);
            }
            if eq_bytes(self.entries[i].0.as_slice(), key) {
                let v: Option<Vec<u8>> = match &self.entries[i].1 {
                    Some(x) => Some(vstd::slice::slice_to_vec(x.as_slice())),
                    None => None,
                };
                return Some(v);
            }
            proof {
                assert(self@.skip(i as int).drop_first() =~= self@.skip(i + 1));
            }
            i += 1;
        }
        proof {
            assert(self@.skip(n as int) =~= Seq::<(Seq<u8>, Option<Seq<u8>>)>::empty());
        }
        None
    }
}

fn apply_segment(seg: &[u8], acc: &mut DispositionParams)
    ensures
        forall|k: Seq<u8>| #[trigger] param_lookup(final(acc)@, k) == seg_update(
            seg@,
            k,
            param_lookup(old(acc)@, k),
        ),
{
    let t = trim_bytes(seg);
    if t.len() == 0 {
        return;
    }
    let mut eq_needle: Vec<u8> = Vec::new();
    eq_needle.push(61);
    proof {
        assert(eq_needle@ =~= seq![61u8]);
    }
    match find_subsequence(t.as_slice(), eq_needle.as_slice()) {
        None => {
            acc.upsert(t, None);
        },
        Some(i) => {
            let tlen = t.len();
            proof {
                lemma_first_match(t@, seq![61u8]);
                assert(match_at(t@, seq![61u8], i as int));
                assert(i + 1 <= tlen);
            }
            let key = trim_bytes(vstd::slice::slice_subrange(t.as_slice(), 0, i));
            let v = strip_quotes(
                trim_bytes(vstd::slice::slice_subrange(t.as_slice(), i + 1, tlen)).as_slice(),
            );
            proof {
                assert(t@.subrange(0, i as int) =~= t@.take(i as int));
                assert(t@.subrange(i + 1, tlen as int) =~= t@.skip(i + 1));
            }
            if v.len() == 0 {
                acc.upsert(key, None);
            } else {
                acc.upsert(key, Some(v));
            }
        },
    }
}

fn apply_segments(rest: &[u8], acc: &mut DispositionParams, semi: &Vec<u8>)
    requires
        semi@ == seq![59u8],
    ensures
        forall|k: Seq<u8>| #[trigger] param_lookup(final(acc)@, k) == disp_lookup_from(
            rest@,
            k,
            param_lookup(old(acc)@, k),
        ),
    decreases rest@.len(),
{
    match find_subsequence(rest, semi.as_slice()) {
        None => {
            apply_segment(rest, acc);
        },
        Some(i) => {
            let rlen = rest.len();
            proof {
                lemma_first_match(rest@, seq![59u8]);
                assert(match_at(rest@, seq![59u8], i as int));
                assert(i + 1 <= rlen);
            }
            let seg = vstd::slice::slice_subrange(rest, 0, i);
            proof {
                assert(rest@.subrange(0, i as int) =~= rest@.take(i as int));
            }
            apply_segment(seg, acc);
            let tail = vstd::slice::slice_subrange(rest, i + 1, rlen);
            proof {
                assert(rest@.subrange(i + 1, rlen as int) =~= rest@.skip(i + 1));
            }
            apply_segments(tail, acc, semi);
        },
    }
}

/// Tokenize a Content-Disposition value into its parameter map.
/// Every key of the input resolves exactly as the disposition text
/// assigns it; keys the input never mentions are absent.
pub fn parse_content_disposition(input: &[u8]) -> (r: DispositionParams)
    ensures
        forall|k: Seq<u8>| #[trigger] param_lookup(r@, k) == disp_lookup(input@, k),
{
    let mut acc = DispositionParams::new();
    let mut semi: Vec<u8> = Vec::new();
    semi.push(59);
    proof {
        assert(semi@ =~= seq![59u8]);
    }
    apply_segments(input, &mut acc, &semi);
    acc
}

} // verus!

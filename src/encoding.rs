use vstd::prelude::*;
use vstd::slice::slice_subrange;

verus! {

/// Relies on memchr::memchr2: the index of the first byte of `haystack`
/// equal to `n1` or `n2`, or `None` when there is none.
#[verifier::external_body]
fn find_either(n1: u8, n2: u8, haystack: &[u8]) -> (r: Option<usize>)
    ensures
        match r {
            Some(i) => i < haystack@.len() && (haystack@[i as int] == n1 || haystack@[i as int]
                == n2) && forall|j: int|
                0 <= j < i ==> haystack@[j] != n1 && haystack@[j] != n2,
            None => forall|j: int|
                0 <= j < haystack@.len() ==> haystack@[j] != n1 && haystack@[j] != n2,
        },
{
    memchr::memchr2(n1, n2, haystack)
}

/// Relies on memchr::memchr: the index of the first byte of `haystack`
/// equal to `n`, or `None` when there is none.
#[verifier::external_body]
fn find_byte(n: u8, haystack: &[u8]) -> (r: Option<usize>)
    ensures
        match r {
            Some(i) => i < haystack@.len() && haystack@[i as int] == n && forall|j: int|
                0 <= j < i ==> haystack@[j] != n,
            None => forall|j: int| 0 <= j < haystack@.len() ==> haystack@[j] != n,
        },
{
    memchr::memchr(n, haystack)
}

/// The value of an ASCII hexadecimal digit, either case.
pub open spec fn hex_value(c: u8) -> Option<u8> {
    if 0x30 <= c <= 0x39 {
        Some((c - 0x30) as u8)
    } else if 0x61 <= c <= 0x66 {
        Some((c - 0x61 + 10) as u8)
    } else if 0x41 <= c <= 0x46 {
        Some((c - 0x41 + 10) as u8)
    } else {
        None
    }
}

/// The bytes that `application/x-www-form-urlencoded` text stands for: `+`
/// is a space, `%` and two hex digits is that byte, anything else is
/// itself (a `%` without two hex digits too).
pub open spec fn url_decoded(s: Seq<u8>) -> Seq<u8>
    decreases s.len(),
{
    if s.len() == 0 {
        Seq::empty()
    } else if s[0] == 0x2b {
        seq![0x20u8] + url_decoded(s.skip(1))
    } else if s[0] == 0x25 && s.len() >= 3 && hex_value(s[1]) is Some && hex_value(s[2]) is Some {
        seq![(hex_value(s[1])->Some_0 * 16 + hex_value(s[2])->Some_0) as u8] + url_decoded(s.skip(3))
    } else {
        seq![s[0]] + url_decoded(s.skip(1))
    }
}

/// The value of a hexadecimal digit.
pub fn hex_digit_to_value(c: u8) -> (r: Option<u8>)
    ensures
        r == hex_value(c),
{
    if 0x30 <= c && c <= 0x39 {
        Some(c - 0x30)
    } else if 0x61 <= c && c <= 0x66 {
        Some(c - 0x61 + 10)
    } else if 0x41 <= c && c <= 0x46 {
        Some(c - 0x41 + 10)
    } else {
        None
    }
}

/// A run of bytes without `+` or `%` decodes to itself.
proof fn lemma_plain_run(t: Seq<u8>, k: int)
    requires
        0 <= k <= t.len(),
        forall|j: int| 0 <= j < k ==> t[j] != 0x2b && t[j] != 0x25,
    ensures
        url_decoded(t) == t.take(k) + url_decoded(t.skip(k)),
    decreases k,
{
    if k == 0 {
        assert(t.skip(0) =~= t);
        assert(t.take(0) =~= Seq::<u8>::empty());
    } else {
        lemma_plain_run(t.skip(1), k - 1);
        assert(t.skip(1).skip(k - 1) =~= t.skip(k));
        assert(t.take(k) =~= seq![t[0]] + t.skip(1).take(k - 1));
    }
}

/// Appends `s[from..to]` to `out`.
fn push_range(out: &mut Vec<u8>, s: &[u8], from: usize, to: usize)
    requires
        from <= to <= s@.len(),
    ensures
        final(out)@ == old(out)@ + s@.subrange(from as int, to as int),
{
    let mut i = from;
    while i < to
        invariant
            from <= i <= to,
            to <= s@.len(),
            out@ == old(out)@ + s@.subrange(from as int, i as int),
        decreases to - i,
    {
        out.push(s[i]);
        assert(s@.subrange(from as int, i + 1) =~= s@.subrange(from as int, i as int).push(
            s@[i as int],
        ));
        i = i + 1;
    }
}

/// Decodes form-url-encoded text: `+` becomes a space and `%XX` the byte
/// it names.
pub fn url_decode(data: &[u8]) -> (r: Vec<u8>)
    ensures
        r@ == url_decoded(data@),
{
    let mut out: Vec<u8> = Vec::new();
    let mut i: usize = 0;
    assert(data@.skip(0) =~= data@);
    while i < data.len()
        invariant
            i <= data.len(),
            out@ + url_decoded(data@.skip(i as int)) == url_decoded(data@),
        decreases data.len() - i,
    {
        let rest = slice_subrange(data, i, data.len());
        assert(rest@ =~= data@.skip(i as int));
        match find_either(0x2b, 0x25, rest) {
            None => {
                proof {
                    lemma_plain_run(rest@, rest@.len() as int);
                    assert(rest@.skip(rest@.len() as int) =~= Seq::<u8>::empty());
                    assert(rest@.take(rest@.len() as int) =~= data@.subrange(
                        i as int,
                        data@.len() as int,
                    ));
                }
                push_range(&mut out, data, i, data.len());
                assert(out@ =~= url_decoded(data@));
                return out;
            },
            Some(k) => {
                let j = i + k;
                proof {
                    lemma_plain_run(rest@, k as int);
                    assert(rest@.skip(k as int) =~= data@.skip(j as int));
                    assert(rest@.take(k as int) =~= data@.subrange(i as int, j as int));
                }
                push_range(&mut out, data, i, j);
                let ghost t = data@.skip(j as int);
                if data[j] == 0x2b {
                    out.push(0x20);
                    assert(t.skip(1) =~= data@.skip(j + 1));
                    i = j + 1;
                } else {
                    let mut decoded = false;
                    if data.len() - j > 2 {
                        let d1 = hex_digit_to_value(data[j + 1]);
                        let d2 = hex_digit_to_value(data[j + 2]);
                        match (d1, d2) {
                            (Some(a), Some(b)) => {
                                out.push(a * 16 + b);
                                assert(t.skip(3) =~= data@.skip(j + 3));
                                i = j + 3;
                                decoded = true;
                            },
                            _ => {},
                        }
                    }
                    if !decoded {
                        out.push(0x25);
                        assert(t.skip(1) =~= data@.skip(j + 1));
                        i = j + 1;
                    }
                }
            },
        }
    }
    assert(data@.skip(i as int) =~= Seq::<u8>::empty());
    out
}

/// The index of the first `c` in `s`, or the length of `s` when there is
/// none.
pub open spec fn index_of(s: Seq<u8>, c: u8) -> int
    decreases s.len(),
{
    if s.len() == 0 {
        0
    } else if s[0] == c {
        0
    } else {
        1 + index_of(s.skip(1), c)
    }
}

/// `index_of` is the first position of the byte, or the length.
pub proof fn lemma_index_of(s: Seq<u8>, c: u8, i: int)
    requires
        0 <= i <= s.len(),
        i < s.len() ==> s[i] == c,
        forall|j: int| 0 <= j < i ==> s[j] != c,
    ensures
        index_of(s, c) == i,
    decreases s.len(),
{
    if s.len() > 0 && i > 0 {
        lemma_index_of(s.skip(1), c, i - 1);
    }
}

/// The next key and value of form-url-encoded text `s`, both decoded, and
/// the text after them: the key runs up to the first `=`, the value from
/// there up to the next `&`. `None` when no `=` is left.
pub open spec fn form_next(s: Seq<u8>) -> Option<(Seq<u8>, Seq<u8>, Seq<u8>)> {
    let k = index_of(s, 0x3d);
    if k >= s.len() {
        None
    } else {
        let t = s.skip(k);
        let e = index_of(t, 0x26);
        Some(
            (
                url_decoded(s.take(k)),
                url_decoded(t.take(e).skip(1)),
                if e >= t.len() {
                    Seq::empty()
                } else {
                    t.skip(e + 1)
                },
            ),
        )
    }
}

/// Reads key/value pairs out of form-url-encoded text, one at a time.
pub struct DecodeFormUrlEncoded {
    data: Vec<u8>,
    pos: usize,
}

/// The pairs of form-url-encoded `data`.
pub fn decode_form_url_encoded(data: &[u8]) -> (r: DecodeFormUrlEncoded)
    ensures
        r.wf(),
        r.rest() == data@,
{
    let r = DecodeFormUrlEncoded { data: crate::codec::copy_bytes(data), pos: 0 };
    assert(r.data@.skip(0) =~= data@);
    r
}

impl DecodeFormUrlEncoded {
    /// The text not read yet.
    pub closed spec fn rest(&self) -> Seq<u8> {
        self.data@.skip(self.pos as int)
    }

    pub closed spec fn wf(&self) -> bool {
        self.pos <= self.data.len()
    }

    /// The next decoded key and value; `None` once no `=` is left, after
    /// which the text is used up.
    pub fn next(&mut self) -> (r: Option<(Vec<u8>, Vec<u8>)>)
        requires
            old(self).wf(),
        ensures
            final(self).wf(),
            match form_next(old(self).rest()) {
                None => r is None && final(self).rest() == Seq::<u8>::empty(),
                Some((k, v, rest)) => r is Some && r->Some_0.0@ == k && r->Some_0.1@ == v && final(self).rest() == rest,
            },
    {
        let ghost s = self.rest();
        let len = self.data.len();
        let rest = slice_subrange(self.data.as_slice(), self.pos, len);
        assert(rest@ =~= s);
        let k = match find_byte(0x3d, rest) {
            Some(k) => k,
            None => {
                proof {
                    lemma_index_of(s, 0x3d, s.len() as int);
                }
                self.pos = len;
                assert(self.rest() =~= Seq::<u8>::empty());
                return None;
            },
        };
        proof {
            lemma_index_of(s, 0x3d, k as int);
        }
        let key = url_decode(slice_subrange(rest, 0, k));
        assert(s.take(k as int) =~= rest@.subrange(0, k as int));
        let tail = slice_subrange(rest, k, rest.len());
        let ghost t = s.skip(k as int);
        assert(tail@ =~= t);
        let e = match find_byte(0x26, tail) {
            Some(e) => {
                proof {
                    lemma_index_of(t, 0x26, e as int);
                }
                e
            },
            None => {
                proof {
                    lemma_index_of(t, 0x26, t.len() as int);
                }
                tail.len()
            },
        };
        let value = url_decode(slice_subrange(tail, 1, e));
        assert(t.take(e as int).skip(1) =~= tail@.subrange(1, e as int));
        if e >= tail.len() {
            self.pos = len;
            assert(self.rest() =~= Seq::<u8>::empty());
        } else {
            self.pos = self.pos + k + e + 1;
            assert(self.rest() =~= t.skip(e + 1));
        }
        Some((key, value))
    }
}

} // verus!

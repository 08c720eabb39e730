//! UTF-8 text seen as bytes: literal tests, searches and slicing at offsets.

use vstd::prelude::*;
use vstd::string::StringSliceAdditionalSpecFns;
use vstd::utf8::*;

verus! {

/// The bytes of a string, as the matchers compare them.
pub open spec fn lit(s: &str) -> Seq<u8> {
    s.spec_bytes()
}

/// Offset `n` of `t` lies past its start, not past its end, and between two
/// characters.
pub open spec fn in_reach(t: Seq<u8>, n: int) -> bool {
    0 < n <= t.len() && is_char_boundary(t, n)
}

/// The bytes of `lit` stand in `t` at offset `at`.
pub open spec fn occurs(t: Seq<u8>, at: int, lit: Seq<u8>) -> bool {
    &&& 0 <= at
    &&& at + lit.len() <= t.len()
    &&& t.subrange(at, at + lit.len()) == lit
}

/// The least offset at or after `from` at which `lit` stands in `t`.
pub open spec fn find(t: Seq<u8>, from: int, lit: Seq<u8>) -> Option<int>
    decreases t.len() - from,
{
    if from < 0 || from + lit.len() > t.len() {
        None
    } else if occurs(t, from, lit) {
        Some(from)
    } else {
        proof {
            assert(lit.len() == 0 ==> t.subrange(from, from) =~= lit);
        }
        find(t, from + 1, lit)
    }
}

/// The least offset at or after `from` that holds the byte `stop`, or the
/// length of `t` where no such offset exists.
pub open spec fn run_end(t: Seq<u8>, from: int, stop: u8) -> int
    decreases t.len() - from,
{
    if from < 0 || from >= t.len() {
        t.len() as int
    } else if t[from] == stop {
        from
    } else {
        run_end(t, from + 1, stop)
    }
}

/// The least offset at or after `from` at which a character starts, or the
/// length of `t` where none starts there.
pub open spec fn char_end(t: Seq<u8>, from: int) -> int
    decreases t.len() - from,
{
    if from < 0 || from >= t.len() {
        t.len() as int
    } else if !is_continuation_byte(t[from]) {
        from
    } else {
        char_end(t, from + 1)
    }
}

/// `char_end` lies between `from` and the length.
pub proof fn lemma_char_end(t: Seq<u8>, from: int)
    requires
        0 <= from <= t.len(),
    ensures
        from <= char_end(t, from) <= t.len(),
    decreases t.len() - from,
{
    if from < t.len() && is_continuation_byte(t[from]) {
        lemma_char_end(t, from + 1);
    }
}

/// What `find` returns lies in range, holds the literal, and is the first
/// such offset.
pub proof fn lemma_find(t: Seq<u8>, from: int, lit: Seq<u8>)
    ensures
        match find(t, from, lit) {
            Some(k) => from <= k && occurs(t, k, lit) && forall|j: int|
                from <= j < k ==> !occurs(t, j, lit),
            None => forall|j: int| 0 <= from <= j ==> !occurs(t, j, lit),
        },
    decreases t.len() - from,
{
    if from < 0 || from + lit.len() > t.len() {
    } else if occurs(t, from, lit) {
    } else {
        assert(lit.len() == 0 ==> t.subrange(from, from) =~= lit);
        lemma_find(t, from + 1, lit);
    }
}

/// `run_end` lies between `from` and the length, stops at `stop` unless it is
/// the length, and passes no `stop` on its way.
pub proof fn lemma_run_end(t: Seq<u8>, from: int, stop: u8)
    requires
        0 <= from <= t.len(),
    ensures
        from <= run_end(t, from, stop) <= t.len(),
        run_end(t, from, stop) < t.len() ==> t[run_end(t, from, stop)] == stop,
        forall|j: int| from <= j < run_end(t, from, stop) ==> t[j] != stop,
    decreases t.len() - from,
{
    if from < t.len() && t[from] != stop {
        lemma_run_end(t, from + 1, stop);
    }
}

/// Where a literal stands, each of its bytes stands.
pub proof fn lemma_occurs_byte(t: Seq<u8>, at: int, lit: Seq<u8>, j: int)
    requires
        occurs(t, at, lit),
        0 <= j < lit.len(),
    ensures
        t[at + j] == lit[j],
{
    assert(t.subrange(at, at + lit.len())[j] == t[at + j]);
}

/// Where a literal stands, each part of it stands.
pub proof fn lemma_occurs_part(t: Seq<u8>, at: int, lit: Seq<u8>, from: int, to: int)
    requires
        occurs(t, at, lit),
        0 <= from <= to <= lit.len(),
    ensures
        occurs(t, at + from, lit.subrange(from, to)),
{
    assert(t.subrange(at + from, at + to) =~= t.subrange(at, at + lit.len()).subrange(from, to));
}

/// What stands in the text behind an offset stands in the whole text.
pub proof fn lemma_occurs_behind(t: Seq<u8>, from: int, at: int, lit: Seq<u8>)
    requires
        0 <= from <= t.len(),
        occurs(t.skip(from), at, lit),
    ensures
        occurs(t, from + at, lit),
{
    assert(t.subrange(from + at, from + at + lit.len()) =~= t.skip(from).subrange(
        at,
        at + lit.len(),
    ));
}

/// A prefix of valid UTF-8 that is itself valid UTF-8 ends at a character
/// boundary.
pub proof fn lemma_valid_prefix_boundary(b: Seq<u8>, n: int)
    requires
        valid_utf8(b),
        0 <= n <= b.len(),
        valid_utf8(b.subrange(0, n)),
    ensures
        is_char_boundary(b, n),
    decreases n,
{
    if n > 0 {
        let p = b.subrange(0, n);
        let w = length_of_first_scalar(b);
        assert(p[0] == b[0]);
        assert(length_of_first_scalar(p) == w);
        assert(w <= n);
        assert(pop_first_scalar(p) =~= pop_first_scalar(b).subrange(0, n - w));
        lemma_valid_prefix_boundary(pop_first_scalar(b), n - w);
    }
}

/// Where valid UTF-8 stands inside valid UTF-8 from one character boundary,
/// it ends at another.
pub proof fn lemma_occurs_boundary(t: Seq<u8>, at: int, lit: Seq<u8>)
    requires
        valid_utf8(t),
        valid_utf8(lit),
        is_char_boundary(t, at),
        occurs(t, at, lit),
    ensures
        is_char_boundary(t, at + lit.len()),
{
    broadcast use group_utf8_lib;
    let rest = t.subrange(at, t.len() as int);
    assert(rest.subrange(0, lit.len() as int) =~= lit);
    lemma_valid_prefix_boundary(rest, lit.len() as int);
    lemma_boundary_shift(t, at, lit.len() as int);
}

/// A boundary of the text after a boundary is a boundary of the whole text.
pub proof fn lemma_boundary_shift(t: Seq<u8>, at: int, n: int)
    requires
        valid_utf8(t),
        is_char_boundary(t, at),
        0 <= at <= t.len(),
        0 <= n <= t.len() - at,
        valid_utf8(t.subrange(at, t.len() as int)),
        is_char_boundary(t.subrange(at, t.len() as int), n),
    ensures
        is_char_boundary(t, at + n),
{
    broadcast use group_utf8_lib;
    let rest = t.subrange(at, t.len() as int);
    if at + n < t.len() {
        assert(rest[n] == t[at + n]);
        is_char_boundary_iff_not_is_continuation_byte(rest, n);
        is_char_boundary_iff_not_is_continuation_byte(t, at + n);
    } else {
        is_char_boundary_start_end_of_seq(t);
    }
}

/// Where non-empty valid UTF-8 stands inside valid UTF-8, it starts at a
/// character boundary.
pub proof fn lemma_occurs_start(t: Seq<u8>, at: int, lit: Seq<u8>)
    requires
        valid_utf8(t),
        valid_utf8(lit),
        lit.len() > 0,
        occurs(t, at, lit),
    ensures
        is_char_boundary(t, at),
{
    broadcast use group_utf8_lib;
    assert(t.subrange(at, at + lit.len())[0] == t[at]);
    is_char_boundary_iff_is_leading_byte(lit, 0);
    is_char_boundary_iff_is_leading_byte(t, at);
}

/// An offset that holds an ASCII byte is a character boundary, and so is the
/// offset after it.
pub proof fn lemma_ascii_boundary(t: Seq<u8>, at: int)
    requires
        valid_utf8(t),
        0 <= at < t.len(),
        t[at] < 0x80,
    ensures
        is_char_boundary(t, at),
        is_char_boundary(t, at + 1),
{
    broadcast use group_utf8_lib;
    is_char_boundary_iff_not_is_continuation_byte(t, at);
    let one = seq![t[at]];
    assert(valid_utf8(one)) by {
        assert(valid_first_scalar(one));
        assert(pop_first_scalar(one) =~= Seq::<u8>::empty());
        assert(valid_utf8(pop_first_scalar(one)));
    }
    assert(t.subrange(at, at + 1) =~= one);
    lemma_occurs_boundary(t, at, one);
}

/// What holds of the bytes of every string: they are valid UTF-8, their two
/// ends are character boundaries, and they decode to its characters.
pub proof fn lemma_text(s: &str)
    ensures
        valid_utf8(s.spec_bytes()),
        is_char_boundary(s.spec_bytes(), 0),
        is_char_boundary(s.spec_bytes(), s.spec_bytes().len() as int),
        decode_utf8(s.spec_bytes()) == s@,
{
    encode_utf8_valid_utf8(s@);
    encode_utf8_decode_utf8(s@);
    is_char_boundary_start_end_of_seq(s.spec_bytes());
}

/// The bytes of `t`, for reading one at a time.
pub fn bytes_of(t: &str) -> (b: &[u8])
    ensures
        b@ == t.spec_bytes(),
        valid_utf8(b@),
{
    proof {
        encode_utf8_valid_utf8(t@);
    }
    t.as_bytes()
}

/// The length of `t` in bytes.
pub fn length(t: &str) -> (n: usize)
    ensures
        n == t.spec_bytes().len(),
{
    bytes_of(t).len()
}

/// Tests whether two strings hold the same bytes.
pub fn same(a: &str, b: &str) -> (r: bool)
    ensures
        r == (a.spec_bytes() == b.spec_bytes()),
{
    if length(a) != length(b) {
        return false;
    }
    let r = starts_at(a, 0, b);
    proof {
        assert(a.spec_bytes().subrange(0, a.spec_bytes().len() as int) =~= a.spec_bytes());
    }
    r
}

/// Tests whether `lit` stands in `t` at offset `at`.
pub fn starts_at(t: &str, at: usize, lit: &str) -> (r: bool)
    ensures
        r == occurs(t.spec_bytes(), at as int, lit.spec_bytes()),
        r && is_char_boundary(t.spec_bytes(), at as int) ==> is_char_boundary(
            t.spec_bytes(),
            at + lit.spec_bytes().len(),
        ),
        t.spec_bytes().len() <= usize::MAX,
{
    let b = bytes_of(t);
    let l = bytes_of(lit);
    if at > b.len() || l.len() > b.len() - at {
        return false;
    }
    let mut j: usize = 0;
    while j < l.len()
        invariant
            b@ == t.spec_bytes(),
            l@ == lit.spec_bytes(),
            at + l.len() <= b.len(),
            j <= l.len(),
            forall|k: int| 0 <= k < j ==> b@[at + k] == #[trigger] l@[k],
        decreases l.len() - j,
    {
        if b[at + j] != l[j] {
            assert(b@.subrange(at as int, at + l.len())[j as int] != l@[j as int]);
            return false;
        }
        j = j + 1;
    }
    assert(b@.subrange(at as int, at + l.len()) =~= l@);
    proof {
        if is_char_boundary(b@, at as int) {
            lemma_occurs_boundary(b@, at as int, l@);
        }
    }
    true
}

/// Finds the first offset at or after `from` at which `lit` stands in `t`.
pub fn find_from(t: &str, from: usize, lit: &str) -> (r: Option<usize>)
    ensures
        match r {
            Some(k) => find(t.spec_bytes(), from as int, lit.spec_bytes()) == Some(k as int),
            None => find(t.spec_bytes(), from as int, lit.spec_bytes()) is None,
        },
        r matches Some(k) ==> from <= k && k + lit.spec_bytes().len() <= t.spec_bytes().len(),
        r matches Some(k) ==> (lit.spec_bytes().len() > 0 ==> is_char_boundary(
            t.spec_bytes(),
            k as int,
        ) && is_char_boundary(t.spec_bytes(), k + lit.spec_bytes().len())),
{
    let n = bytes_of(t).len();
    let m = bytes_of(lit).len();
    let ghost tb = t.spec_bytes();
    let ghost lb = lit.spec_bytes();
    if from > n || m > n - from {
        return None;
    }
    let mut k: usize = from;
    loop
        invariant
            tb == t.spec_bytes(),
            lb == lit.spec_bytes(),
            n == tb.len(),
            m == lb.len(),
            from <= k <= n - m,
            find(tb, from as int, lb) == find(tb, k as int, lb),
        decreases n - m - k,
    {
        if starts_at(t, k, lit) {
            proof {
                encode_utf8_valid_utf8(t@);
                encode_utf8_valid_utf8(lit@);
                if m > 0 {
                    lemma_occurs_start(tb, k as int, lb);
                }
            }
            return Some(k);
        }
        if k >= n - m {
            assert(find(tb, k + 1, lb) is None);
            return None;
        }
        k = k + 1;
    }
}

/// Finds the first offset at or after `from` that holds `stop`; the length of
/// `t` where there is none.
pub fn skip_to(t: &str, from: usize, stop: u8) -> (r: usize)
    requires
        from <= t.spec_bytes().len(),
    ensures
        r == run_end(t.spec_bytes(), from as int, stop),
        from <= r <= t.spec_bytes().len(),
        stop < 0x80 ==> is_char_boundary(t.spec_bytes(), r as int),
        stop < 0x80 && r < t.spec_bytes().len() ==> is_char_boundary(t.spec_bytes(), r + 1),
{
    let b = bytes_of(t);
    let mut k: usize = from;
    while k < b.len() && b[k] != stop
        invariant
            from <= k <= b.len(),
            run_end(b@, from as int, stop) == run_end(b@, k as int, stop),
        decreases b.len() - k,
    {
        k = k + 1;
    }
    proof {
        if stop < 0x80 {
            if k < b.len() {
                lemma_ascii_boundary(b@, k as int);
            } else {
                is_char_boundary_start_end_of_seq(b@);
            }
        }
    }
    k
}

/// Finds the first offset at or after `from` at which a character starts;
/// the length of `t` where there is none.
pub fn next_char(t: &str, from: usize) -> (r: usize)
    requires
        from <= t.spec_bytes().len(),
    ensures
        r == char_end(t.spec_bytes(), from as int),
        from <= r <= t.spec_bytes().len(),
        is_char_boundary(t.spec_bytes(), r as int),
{
    let n = length(t);
    proof {
        lemma_text(t);
    }
    let mut k: usize = from;
    while k < n && !t.is_char_boundary(k)
        invariant
            n == t.spec_bytes().len(),
            valid_utf8(t.spec_bytes()),
            from <= k <= n,
            char_end(t.spec_bytes(), from as int) == char_end(t.spec_bytes(), k as int),
        decreases n - k,
    {
        proof {
            is_char_boundary_iff_not_is_continuation_byte(t.spec_bytes(), k as int);
        }
        k = k + 1;
    }
    proof {
        if k < n {
            is_char_boundary_iff_not_is_continuation_byte(t.spec_bytes(), k as int);
        }
    }
    k
}

/// The part of `t` from offset `from` to its end.
pub fn tail<'a>(t: &'a str, from: usize) -> (r: &'a str)
    requires
        is_char_boundary(t.spec_bytes(), from as int),
    ensures
        r.spec_bytes() == t.spec_bytes().subrange(from as int, t.spec_bytes().len() as int),
{
    let (head, rest) = t.split_at(from);
    rest
}

/// The part of `t` from offset `from` up to offset `to`.
pub fn slice<'a>(t: &'a str, from: usize, to: usize) -> (r: &'a str)
    requires
        from <= to <= t.spec_bytes().len(),
        is_char_boundary(t.spec_bytes(), from as int),
        is_char_boundary(t.spec_bytes(), to as int),
    ensures
        r.spec_bytes() == t.spec_bytes().subrange(from as int, to as int),
{
    proof {
        encode_utf8_valid_utf8(t@);
    }
    let (head, rest) = t.split_at(to);
    proof {
        let hb = t.spec_bytes().subrange(0, to as int);
        assert(head.spec_bytes() == hb);
        encode_utf8_valid_utf8(head@);
        if from < to {
            is_char_boundary_iff_not_is_continuation_byte(t.spec_bytes(), from as int);
            is_char_boundary_iff_not_is_continuation_byte(hb, from as int);
        } else {
            is_char_boundary_start_end_of_seq(hb);
        }
    }
    let (skipped, part) = head.split_at(from);
    assert(part.spec_bytes() =~= t.spec_bytes().subrange(from as int, to as int));
    part
}

} // verus!
